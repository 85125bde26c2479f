//! Utilities for dealing with canonical component names and pod names.
//!
//! These are the only two types of names that the work runtime deals with,
//! and they have significant syntactic overlap,
//! so they share a single permissive parsing function: [`Name::parse`],
//! which cheaply parses anything that *might* be either of them.
//!
//! Both are always in *canonical* form,
//! where the domain is always a UUID and never an alias.
//!
//! Once parsed, use the conversion functions to validate a name as a particular type.
//! These are:
//! - [`ComponentName`]
//! - [`PodName`]

use vstd::prelude::*;
use vstd::utf8::{
    encode_scalar, encode_utf8, has_width_1_encoding, has_width_2_encoding, has_width_3_encoding,
    is_ascii_chars, is_ascii_chars_encode_utf8,
};

use crate::runtime::error::{status, status_result, Code, Status, StatusView};
use crate::text::{
    hex_digit_value, is_hex_digit, lemma_hex_usize_roundtrip, lemma_split_name_parts,
    lemma_version_chars, lower_hex_digits, split_parts, alnum, chars_of, hex_char, hex_string, hex_usize, is_alnum, is_letter, is_valid_version,
    letter, opt_view, parse_hex_usize, push_hex, push_hex_digit, split_name, split_name_spec,
    valid_version, NameParts,
};

verus! {

pub type PodId = usize;

/// Maximum length (inclusive) for K8s labels values.
pub const K8S_LABEL_VALUE_MAX_LENGTH: usize = 63;

/// Permissively [parses](Self::parse) a service / version name:
///     [ domain ':' ] service-name [ '@' version [ '#' pod-id ] ]
///
/// Use the conversion functions to validate and convert to particular name types.
pub struct Name<'a> {
    pub domain: Option<&'a str>,
    pub service: &'a str,
    pub version: Option<&'a str>,
    pub pod: Option<&'a str>,
}

impl<'a> View for Name<'a> {
    type V = NameParts;

    open spec fn view(&self) -> NameParts {
        NameParts {
            domain: opt_view(self.domain),
            service: self.service@,
            version: opt_view(self.version),
            pod: opt_view(self.pod),
        }
    }
}

// ---------------------------------------------------------------------------
// Domain UUIDs
// ---------------------------------------------------------------------------

/// The 128 bits of a canonical domain,
/// as bytes in little-endian order.
#[derive(Clone, Copy, Debug, PartialEq, Eq, Hash)]
pub struct DomainUuid {
    pub uuid: [u8; 16],
}

impl View for DomainUuid {
    type V = Seq<u8>;

    open spec fn view(&self) -> Seq<u8> {
        self.uuid@
    }
}

/// A lower-case hexadecimal digit (`0-9`, `a-f`) as an ASCII byte.
pub open spec fn is_lower_hex_byte(b: u8) -> bool {
    (48 <= b && b <= 57) || (97 <= b && b <= 102)
}

/// The value of a lower-case hexadecimal digit given as an ASCII byte.
pub open spec fn nibble(b: u8) -> u8 {
    if b <= 57 {
        (b - 48) as u8
    } else {
        (b - 87) as u8
    }
}

/// What [`DomainUuid::parse`] returns for the bytes of a string:
/// 32 lower-case hexadecimal digits, two per byte, the low nibble first.
pub open spec fn domain_uuid_spec(bytes: Seq<u8>) -> Result<Seq<u8>, StatusView> {
    if bytes.len() < 32 {
        Err(status(Code::InvalidArgument, "domain-uuid-too-short"))
    } else if bytes.len() > 32 {
        Err(status(Code::InvalidArgument, "domain-uuid-too-long"))
    } else if exists|i: int| 0 <= i < 32 && !is_lower_hex_byte(bytes[i]) {
        Err(status(Code::InvalidArgument, "domain-uuid-invalid-characters"))
    } else {
        Ok(
            Seq::new(
                16,
                |k: int| (nibble(bytes[2 * k]) + 16 * nibble(bytes[2 * k + 1])) as u8,
            ),
        )
    }
}

/// The 32-character textual form of a domain UUID:
/// for each byte, its low nibble then its high nibble, in lower-case hexadecimal.
pub open spec fn domain_uuid_text(uuid: Seq<u8>) -> Seq<char> {
    Seq::new(
        32,
        |i: int|
            if i % 2 == 0 {
                hex_char((uuid[i / 2] % 16) as nat, false)
            } else {
                hex_char((uuid[i / 2] / 16) as nat, false)
            },
    )
}

/// A lower-case hexadecimal digit, as a byte, reads back as its value.
proof fn lemma_hex_char_byte(d: nat)
    requires
        d < 16,
    ensures
        '\0' <= hex_char(d, false) <= '\u{7f}',
        is_lower_hex_byte(hex_char(d, false) as u8),
        nibble(hex_char(d, false) as u8) == d,
        is_hex_digit(hex_char(d, false)),
        hex_digit_value(hex_char(d, false)) == d,
        is_alnum(hex_char(d, false)),
{
    let h = lower_hex_digits();
    if d == 0 {
        assert(h[0] == '0');
    } else if d == 1 {
        assert(h[1] == '1');
    } else if d == 2 {
        assert(h[2] == '2');
    } else if d == 3 {
        assert(h[3] == '3');
    } else if d == 4 {
        assert(h[4] == '4');
    } else if d == 5 {
        assert(h[5] == '5');
    } else if d == 6 {
        assert(h[6] == '6');
    } else if d == 7 {
        assert(h[7] == '7');
    } else if d == 8 {
        assert(h[8] == '8');
    } else if d == 9 {
        assert(h[9] == '9');
    } else if d == 10 {
        assert(h[10] == 'a');
    } else if d == 11 {
        assert(h[11] == 'b');
    } else if d == 12 {
        assert(h[12] == 'c');
    } else if d == 13 {
        assert(h[13] == 'd');
    } else if d == 14 {
        assert(h[14] == 'e');
    } else {
        assert(h[15] == 'f');
    }
}

/// The text of a domain UUID is made of ASCII characters, and its bytes are lower-case
/// hexadecimal digits: each byte's low nibble, then its high nibble.
proof fn lemma_domain_uuid_text_bytes(uuid: Seq<u8>)
    requires
        uuid.len() == 16,
    ensures
        is_ascii_chars(domain_uuid_text(uuid)),
        encode_utf8(domain_uuid_text(uuid)).len() == 32,
        forall|k: int|
            #![trigger encode_utf8(domain_uuid_text(uuid))[2 * k]]
            0 <= k < 16 ==> {
                &&& is_lower_hex_byte(encode_utf8(domain_uuid_text(uuid))[2 * k])
                &&& is_lower_hex_byte(encode_utf8(domain_uuid_text(uuid))[2 * k + 1])
                &&& nibble(encode_utf8(domain_uuid_text(uuid))[2 * k]) == uuid[k] % 16
                &&& nibble(encode_utf8(domain_uuid_text(uuid))[2 * k + 1]) == uuid[k] / 16
            },
{
    let t = domain_uuid_text(uuid);
    assert forall|i: int| 0 <= i < t.len() implies '\0' <= #[trigger] t[i] <= '\u{7f}' && is_lower_hex_byte(
        t[i] as u8,
    ) by {
        if i % 2 == 0 {
            lemma_hex_char_byte((uuid[i / 2] % 16) as nat);
        } else {
            lemma_hex_char_byte((uuid[i / 2] / 16) as nat);
        }
    }
    assert(is_ascii_chars(t));
    is_ascii_chars_encode_utf8(t);
    let b = encode_utf8(t);
    assert forall|k: int| 0 <= k < 16 implies {
        &&& is_lower_hex_byte(#[trigger] b[2 * k])
        &&& is_lower_hex_byte(b[2 * k + 1])
        &&& nibble(b[2 * k]) == uuid[k] % 16
        &&& nibble(b[2 * k + 1]) == uuid[k] / 16
    } by {
        assert(t[2 * k] as u8 == b[2 * k]);
        assert(t[2 * k + 1] as u8 == b[2 * k + 1]);
        assert((2 * k) / 2 == k);
        assert((2 * k + 1) / 2 == k);
        assert((2 * k) % 2 == 0);
        assert((2 * k + 1) % 2 == 1);
        lemma_hex_char_byte((uuid[k] % 16) as nat);
        lemma_hex_char_byte((uuid[k] / 16) as nat);
    }
}

/// A string whose UTF-8 encoding holds only bytes below 128 is made of ASCII characters.
proof fn lemma_ascii_bytes(s: Seq<char>)
    requires
        forall|i: int| 0 <= i < encode_utf8(s).len() ==> encode_utf8(s)[i] < 128,
    ensures
        is_ascii_chars(s),
    decreases s.len(),
{
    if s.len() > 0 {
        let c = s[0] as u32;
        vstd::utf8::char_is_scalar(s[0]);
        let e = encode_scalar(c);
        let t = s.drop_first();
        assert(encode_utf8(s) == e + encode_utf8(t));
        assert(e.len() >= 1);
        assert(encode_utf8(s)[0] == e[0]);
        if !has_width_1_encoding(c) {
            if has_width_2_encoding(c) {
                assert((0xC0u8 | ((c >> 6u32) & 0x1Fu32) as u8) >= 0xC0u8) by (bit_vector);
            } else if has_width_3_encoding(c) {
                assert((0xE0u8 | ((c >> 12u32) & 0x0Fu32) as u8) >= 0xC0u8) by (bit_vector);
            } else {
                assert((0xF0u8 | ((c >> 18u32) & 0x7u32) as u8) >= 0xC0u8) by (bit_vector);
            }
        }
        assert forall|i: int| 0 <= i < encode_utf8(t).len() implies encode_utf8(t)[i] < 128 by {
            assert(encode_utf8(s)[e.len() + i] == encode_utf8(t)[i]);
        }
        lemma_ascii_bytes(t);
        assert(has_width_1_encoding(c));
        assert(c <= 0x7f);
        vstd::utf8::char_u32_cast(s[0], c);
        assert((c as char) <= '\u{7f}');
        assert('\0' <= s[0] <= '\u{7f}');
        assert forall|i: int| 0 <= i < s.len() implies '\0' <= #[trigger] s[i] <= '\u{7f}' by {
            if i > 0 {
                assert(s[i] == t[i - 1]);
            }
        }
    }
}

/// A lower-case hexadecimal digit byte is the byte of the digit character of its value.
proof fn lemma_hex_byte_char(x: u8)
    requires
        is_lower_hex_byte(x),
    ensures
        hex_char(nibble(x) as nat, false) as u8 == x,
{
    lemma_hex_char_byte(nibble(x) as nat);
}

/// Formatting a parsed domain UUID gives the text it was parsed from.
pub proof fn lemma_domain_uuid_text_of_parse(text: Seq<char>, uuid: Seq<u8>)
    requires
        domain_uuid_spec(encode_utf8(text)) == Ok::<Seq<u8>, StatusView>(uuid),
    ensures
        domain_uuid_text(uuid) == text,
{
    let b = encode_utf8(text);
    assert forall|i: int| 0 <= i < b.len() implies b[i] < 128 by {
        assert(is_lower_hex_byte(b[i]));
    }
    lemma_ascii_bytes(text);
    is_ascii_chars_encode_utf8(text);
    let t = domain_uuid_text(uuid);
    assert forall|i: int| 0 <= i < 32 implies t[i] == text[i] by {
        let k = i / 2;
        assert(is_lower_hex_byte(b[2 * k]));
        assert(is_lower_hex_byte(b[2 * k + 1]));
        let lo = nibble(b[2 * k]);
        let hi = nibble(b[2 * k + 1]);
        assert(uuid[k] == (lo + 16 * hi) as u8);
        assert(uuid[k] % 16 == lo && uuid[k] / 16 == hi);
        let d: nat = if i % 2 == 0 {
            lo as nat
        } else {
            hi as nat
        };
        let x = b[i];
        if i % 2 == 0 {
            assert(i == 2 * k);
        } else {
            assert(i == 2 * k + 1);
        }
        assert(nibble(x) == d);
        lemma_hex_byte_char(x);
        lemma_hex_char_byte(d);
        assert(t[i] == hex_char(d, false));
        assert(text[i] as u8 == x);
        assert(hex_char(d, false) as u8 == x);
    }
    assert(t =~= text);
}

/// Parsing the text of a domain UUID gives the UUID back: formatting is the inverse of
/// parsing.
pub proof fn lemma_domain_uuid_roundtrip(uuid: Seq<u8>)
    requires
        uuid.len() == 16,
    ensures
        domain_uuid_spec(encode_utf8(domain_uuid_text(uuid))) == Ok::<Seq<u8>, StatusView>(uuid),
{
    lemma_domain_uuid_text_bytes(uuid);
    let b = encode_utf8(domain_uuid_text(uuid));
    assert forall|i: int| 0 <= i < 32 implies is_lower_hex_byte(b[i]) by {
        let k = i / 2;
        if i % 2 == 0 {
            assert(i == 2 * k);
            assert(is_lower_hex_byte(b[2 * k]));
        } else {
            assert(i == 2 * k + 1);
            assert(is_lower_hex_byte(b[2 * k]));
        }
    }
    let parsed = Seq::new(16, |k: int| (nibble(b[2 * k]) + 16 * nibble(b[2 * k + 1])) as u8);
    assert forall|k: int| 0 <= k < 16 implies parsed[k] == uuid[k] by {
        assert(is_lower_hex_byte(b[2 * k]));
        assert(uuid[k] % 16 + 16 * (uuid[k] / 16) == uuid[k]);
    }
    assert(parsed =~= uuid);
}

/// The characters of a domain UUID's text are ASCII alphanumerics.
proof fn lemma_domain_text_alnum(uuid: Seq<u8>)
    requires
        uuid.len() == 16,
    ensures
        domain_uuid_text(uuid).len() == 32,
        forall|i: int| 0 <= i < 32 ==> #[trigger] is_alnum(domain_uuid_text(uuid)[i]),
{
    let t = domain_uuid_text(uuid);
    assert forall|i: int| 0 <= i < 32 implies #[trigger] is_alnum(t[i]) by {
        if i % 2 == 0 {
            lemma_hex_char_byte((uuid[i / 2] % 16) as nat);
        } else {
            lemma_hex_char_byte((uuid[i / 2] / 16) as nat);
        }
    }
}

/// The text of a well-formed component name splits back into its parts: the domain text,
/// the service and the version, followed by whatever came after the version.
proof fn lemma_split_component_text(c: ComponentNameView, tail: Seq<char>)
    requires
        component_wf(c),
        tail.len() == 0 || tail[0] == '#',
    ensures
        split_name_spec(component_name_text(c) + tail) == split_parts(
            domain_uuid_text(c.service.domain),
            c.service.service,
            c.version,
            tail,
        ),
{
    let d = domain_uuid_text(c.service.domain);
    lemma_domain_text_alnum(c.service.domain);
    assert forall|j: int| 0 <= j < d.len() implies d[j] != ':' && d[j] != '@' by {
        assert(is_alnum(d[j]));
    }
    assert forall|j: int| 0 <= j < c.service.service.len() implies c.service.service[j] != '@' by {
        assert(is_service_char(c.service.service[j]));
    }
    lemma_version_chars(c.version);
    assert forall|j: int| 0 <= j < c.version.len() implies c.version[j] != '#' by {
        assert(is_alnum(c.version[j]) || c.version[j] == '.' || c.version[j] == '-');
    }
    lemma_split_name_parts(d, c.service.service, c.version, tail);
    assert(component_name_text(c) + tail =~= d + seq![':'] + c.service.service + seq!['@'] + c.version
        + tail);
}

/// Parsing the text of a well-formed component name gives the name back.
pub proof fn lemma_component_name_roundtrip(c: ComponentNameView)
    requires
        component_wf(c),
    ensures
        component_spec(split_name_spec(component_name_text(c))) == Ok::<ComponentNameView, StatusView>(c),
{
    lemma_split_component_text(c, Seq::<char>::empty());
    assert(component_name_text(c) + Seq::<char>::empty() =~= component_name_text(c));
    lemma_domain_uuid_roundtrip(c.service.domain);
}

/// Parsing the text of a pod name with a well-formed component gives the name back.
pub proof fn lemma_pod_name_roundtrip(p: PodNameView)
    requires
        component_wf(p.component),
    ensures
        pod_spec(split_name_spec(pod_name_text(p))) == Ok::<PodNameView, StatusView>(p),
{
    let h = hex_string(p.pod as nat, false);
    let tail = seq!['#'] + h;
    lemma_split_component_text(p.component, tail);
    assert(pod_name_text(p) =~= component_name_text(p.component) + tail);
    assert(tail.subrange(1, tail.len() as int) =~= h);
    lemma_domain_uuid_roundtrip(p.component.service.domain);
    lemma_hex_usize_roundtrip(p.pod, false);
}

fn lower_hex_nibble(b: u8) -> (res: Option<u8>)
    ensures
        res is Some <==> is_lower_hex_byte(b),
        res matches Some(n) ==> n == nibble(b) && n < 16,
{
    if 48 <= b && b <= 57 {
        Some(b - 48)
    } else if 97 <= b && b <= 102 {
        Some(b - 87)
    } else {
        None
    }
}

impl DomainUuid {
    /// Parse the 32-character hexadecimal form of a domain UUID.
    pub fn parse(uuid: &str) -> (res: Result<DomainUuid, Status>)
        ensures
            status_result(res) == domain_uuid_spec(encode_utf8(uuid@)),
    {
        let bytes = uuid.as_bytes();
        // The hex-encoded UUID string must be 32 bytes long
        // (1 logical nibble per hex-encoded byte).
        if bytes.len() < 32 {
            return Err(Status::invalid_argument("domain-uuid-too-short"));
        }
        if bytes.len() > 32 {
            return Err(Status::invalid_argument("domain-uuid-too-long"));
        }
        let mut out: [u8; 16] = [0u8; 16];
        let mut k: usize = 0;
        while k < 16
            invariant
                0 <= k <= 16,
                bytes@ == encode_utf8(uuid@),
                bytes@.len() == 32,
                forall|j: int| 0 <= j < 2 * k ==> is_lower_hex_byte(bytes@[j]),
                forall|j: int|
                    0 <= j < k ==> out@[j] == (nibble(bytes@[2 * j]) + 16 * nibble(
                        bytes@[2 * j + 1],
                    )) as u8,
            decreases 16 - k,
        {
            let low = lower_hex_nibble(bytes[2 * k]);
            let high = lower_hex_nibble(bytes[2 * k + 1]);
            match (low, high) {
                (Some(low), Some(high)) => {
                    out[k] = low + 16 * high;
                },
                _ => {
                    assert(!is_lower_hex_byte(bytes@[2 * k as int]) || !is_lower_hex_byte(
                        bytes@[2 * k + 1],
                    ));
                    return Err(Status::invalid_argument("domain-uuid-invalid-characters"));
                },
            }
            k = k + 1;
        }
        let res = DomainUuid { uuid: out };
        assert(res@ =~= Seq::new(
            16,
            |k: int| (nibble(bytes@[2 * k]) + 16 * nibble(bytes@[2 * k + 1])) as u8,
        ));
        Ok(res)
    }

    pub fn new(bytes: &[u8; 16]) -> (res: DomainUuid)
        ensures
            res@ == bytes@,
    {
        DomainUuid { uuid: *bytes }
    }

    /// Format the domain UUID as a 32-character hex-encoded string.
    /// Inverse of [`DomainUuid::parse`].
    pub fn to_string(&self) -> (s: String)
        ensures
            s@ == domain_uuid_text(self@),
    {
        let mut s = String::new();
        let mut k: usize = 0;
        while k < 16
            invariant
                0 <= k <= 16,
                s@ == domain_uuid_text(self@).take(2 * k),
            decreases 16 - k,
        {
            let b = self.uuid[k];
            let ghost before = s@;
            push_hex_digit(&mut s, (b % 16) as usize, false);
            push_hex_digit(&mut s, (b / 16) as usize, false);
            assert(s@ =~= domain_uuid_text(self@).take(2 * k + 2));
            k = k + 1;
        }
        assert(domain_uuid_text(self@).take(32) =~= domain_uuid_text(self@));
        s
    }
}

// ---------------------------------------------------------------------------
// Service names
// ---------------------------------------------------------------------------

pub open spec fn is_service_char(c: char) -> bool {
    is_alnum(c) || c == '_' || c == '.'
}

/// A dot at position `i` is followed by a letter or an underscore
/// (each part of a service name starts with one; Protobuf forbids a leading digit).
pub open spec fn part_starts_well(s: Seq<char>, i: int) -> bool {
    s[i] == '.' ==> (is_letter(s[i + 1]) || s[i + 1] == '_')
}

/// Syntactically valid service names:
/// at most 63 characters, only ASCII alphanumerics, underscores and dots,
/// at least two non-empty dot-separated parts (full service names have a package prefix),
/// a letter first, an alphanumeric last, and no part starting with a digit.
pub open spec fn is_valid_service_name(s: Seq<char>) -> bool {
    &&& 1 <= s.len() <= K8S_LABEL_VALUE_MAX_LENGTH
    &&& is_letter(s[0])
    &&& is_alnum(s[s.len() - 1])
    &&& forall|i: int| 0 <= i < s.len() ==> is_service_char(s[i])
    &&& exists|i: int| 0 <= i < s.len() && s[i] == '.'
    &&& forall|i: int| 0 <= i < s.len() - 1 ==> #[trigger] part_starts_well(s, i)
}

/// Predicate for syntactically valid service names: see [`is_valid_service_name`].
fn valid_service_name(name: &str) -> (b: bool)
    ensures
        b == is_valid_service_name(name@),
{
    let s = chars_of(name);
    let n = s.len();
    if n < 1 || n > K8S_LABEL_VALUE_MAX_LENGTH {
        return false;
    }
    if !letter(s[0]) || !alnum(s[n - 1]) {
        return false;
    }
    let mut has_dot = false;
    let mut i: usize = 0;
    while i < n
        invariant
            0 <= i <= n,
            n == s.len(),
            s@ == name@,
            forall|j: int| 0 <= j < i ==> is_service_char(s@[j]),
            has_dot <==> exists|j: int| 0 <= j < i && s@[j] == '.',
            forall|j: int| 0 <= j < i - 1 ==> #[trigger] part_starts_well(s@, j),
        decreases n - i,
    {
        let c = s[i];
        if !(alnum(c) || c == '_' || c == '.') {
            return false;
        }
        if i > 0 && s[i - 1] == '.' && !(letter(c) || c == '_') {
            assert(!part_starts_well(s@, i - 1));
            return false;
        }
        if c == '.' {
            has_dot = true;
        }
        i = i + 1;
    }
    assert forall|j: int| 0 <= j < n - 1 implies #[trigger] part_starts_well(s@, j) by {}
    has_dot
}

// ---------------------------------------------------------------------------
// Validated names
// ---------------------------------------------------------------------------

/// A service name:
///     domain ':' service-name
#[derive(Clone, Debug, PartialEq, Eq, Hash)]
pub struct ServiceName {
    pub domain: DomainUuid,
    pub service: String,
}

pub struct ServiceNameView {
    pub domain: Seq<u8>,
    pub service: Seq<char>,
}

impl View for ServiceName {
    type V = ServiceNameView;

    open spec fn view(&self) -> ServiceNameView {
        ServiceNameView { domain: self.domain@, service: self.service@ }
    }
}

/// A component name (versioned service):
///     domain ':' service-name '@' version
#[derive(Clone, Debug, PartialEq, Eq, Hash)]
pub struct ComponentName {
    pub service: ServiceName,
    pub version: String,
}

pub struct ComponentNameView {
    pub service: ServiceNameView,
    pub version: Seq<char>,
}

impl View for ComponentName {
    type V = ComponentNameView;

    open spec fn view(&self) -> ComponentNameView {
        ComponentNameView { service: self.service@, version: self.version@ }
    }
}

/// A pod / container name:
///     domain ':' service-name '@' version '#' pod-id
#[derive(Clone, Debug, PartialEq, Eq, Hash)]
pub struct PodName {
    pub component: ComponentName,
    pub pod: PodId,
}

pub struct PodNameView {
    pub component: ComponentNameView,
    pub pod: PodId,
}

impl View for PodName {
    type V = PodNameView;

    open spec fn view(&self) -> PodNameView {
        PodNameView { component: self.component@, pod: self.pod }
    }
}

/// What [`ServiceName::new`] returns.
pub open spec fn service_name_spec(domain: Seq<u8>, service: Seq<char>) -> Result<
    ServiceNameView,
    StatusView,
> {
    if is_valid_service_name(service) {
        Ok(ServiceNameView { domain, service })
    } else {
        Err(status(Code::InvalidArgument, "invalid-service-name"))
    }
}

/// What [`ComponentName::new`] returns.
pub open spec fn component_name_spec(domain: Seq<u8>, service: Seq<char>, version: Seq<char>) -> Result<
    ComponentNameView,
    StatusView,
> {
    if is_valid_version(version) {
        match service_name_spec(domain, service) {
            Ok(s) => Ok(ComponentNameView { service: s, version }),
            Err(e) => Err(e),
        }
    } else {
        Err(status(Code::InvalidArgument, "invalid-version"))
    }
}

/// A well-formed component name: one that [`ComponentName::new`] could have returned.
pub open spec fn component_wf(c: ComponentNameView) -> bool {
    &&& c.service.domain.len() == 16
    &&& is_valid_service_name(c.service.service)
    &&& is_valid_version(c.version)
}

/// Textual form of a service name: `domain:service`.
pub open spec fn service_name_text(v: ServiceNameView) -> Seq<char> {
    domain_uuid_text(v.domain) + seq![':'] + v.service
}

/// Textual form of a component name: `domain:service@version`.
pub open spec fn component_name_text(v: ComponentNameView) -> Seq<char> {
    service_name_text(v.service) + seq!['@'] + v.version
}

/// Textual form of a pod name: `domain:service@version#pod` (lower-case hexadecimal pod ID).
pub open spec fn pod_name_text(v: PodNameView) -> Seq<char> {
    component_name_text(v.component) + seq!['#'] + hex_string(v.pod as nat, false)
}

impl ServiceName {
    pub fn new(domain: DomainUuid, service: &str) -> (res: Result<ServiceName, Status>)
        ensures
            status_result(res) == service_name_spec(domain@, service@),
    {
        if valid_service_name(service) {
            Ok(ServiceName { domain, service: service.to_owned() })
        } else {
            Err(Status::invalid_argument("invalid-service-name"))
        }
    }

    /// The textual form `domain:service`.
    pub fn to_string(&self) -> (s: String)
        ensures
            s@ == service_name_text(self@),
    {
        let mut s = self.domain.to_string();
        s.append(":");
        s.append(self.service.as_str());
        proof {
            reveal_strlit(":");
        }
        assert(s@ =~= service_name_text(self@));
        s
    }
}

impl ComponentName {
    pub fn new(domain: DomainUuid, service: &str, version: &str) -> (res: Result<
        ComponentName,
        Status,
    >)
        ensures
            status_result(res) == component_name_spec(domain@, service@, version@),
    {
        if valid_version(version) {
            match ServiceName::new(domain, service) {
                Ok(service) => Ok(ComponentName { service, version: version.to_owned() }),
                Err(e) => Err(e),
            }
        } else {
            Err(Status::invalid_argument("invalid-version"))
        }
    }

    /// A clone of this name that is known to equal it.
    pub fn duplicate(&self) -> (r: ComponentName)
        ensures
            r@ == self@,
    {
        ComponentName {
            service: ServiceName {
                domain: self.service.domain,
                service: self.service.service.clone(),
            },
            version: self.version.clone(),
        }
    }

    /// The textual form `domain:service@version`.
    pub fn to_string(&self) -> (s: String)
        ensures
            s@ == component_name_text(self@),
    {
        let mut s = self.service.to_string();
        s.append("@");
        s.append(self.version.as_str());
        proof {
            reveal_strlit("@");
        }
        assert(s@ =~= component_name_text(self@));
        s
    }
}

impl PodName {
    pub fn new(component: ComponentName, pod_id: PodId) -> (res: PodName)
        ensures
            res@ == (PodNameView { component: component@, pod: pod_id }),
    {
        PodName { component, pod: pod_id }
    }

    /// The textual form `domain:service@version#pod`,
    /// with the pod ID in lower-case hexadecimal.
    pub fn to_string(&self) -> (s: String)
        ensures
            s@ == pod_name_text(self@),
    {
        let mut s = self.component.to_string();
        s.append("#");
        proof {
            reveal_strlit("#");
        }
        push_hex(&mut s, self.pod, false);
        assert(s@ =~= pod_name_text(self@));
        s
    }
}

// ---------------------------------------------------------------------------
// Conversions from permissively parsed names
// ---------------------------------------------------------------------------

/// What [`Name::component`] returns for the parts of a name.
pub open spec fn component_spec(n: NameParts) -> Result<ComponentNameView, StatusView> {
    match (n.domain, n.version) {
        (Some(d), Some(v)) if n.pod is None => match domain_uuid_spec(encode_utf8(d)) {
            Ok(u) => component_name_spec(u, n.service, v),
            Err(e) => Err(e),
        },
        _ => Err(status(Code::InvalidArgument, "invalid-component-name")),
    }
}

/// What [`Name::pod`] returns for the parts of a name.
pub open spec fn pod_spec(n: NameParts) -> Result<PodNameView, StatusView> {
    match (n.domain, n.version, n.pod) {
        (Some(d), Some(v), Some(p)) => match domain_uuid_spec(encode_utf8(d)) {
            Ok(u) => match component_name_spec(u, n.service, v) {
                Ok(c) => match hex_usize(p) {
                    Some(id) => Ok(PodNameView { component: c, pod: id }),
                    None => Err(status(Code::InvalidArgument, "invalid-pod-id")),
                },
                Err(e) => Err(e),
            },
            Err(e) => Err(e),
        },
        _ => Err(status(Code::InvalidArgument, "invalid-pod-name")),
    }
}

impl<'a> Name<'a> {
    /// Permissively parse a service / version name:
    ///     [ domain ':' ] service-name [ '@' version [ '#' pod-id ] ]
    pub fn parse(full: &'a str) -> (res: Name<'a>)
        ensures
            res@ == split_name_spec(full@),
    {
        let (domain, service, version, pod) = split_name(full);
        Name { domain, service, version, pod }
    }

    /// If the domain and version are both explicitly present and valid,
    /// but the pod ID is absent,
    /// consume self and return an equivalent [`ComponentName`].
    pub fn component(self) -> (res: Result<ComponentName, Status>)
        ensures
            status_result(res) == component_spec(self@),
    {
        if let Some(domain) = self.domain {
            if let Some(version) = self.version {
                if self.pod.is_none() {
                    let domain = match DomainUuid::parse(domain) {
                        Ok(d) => d,
                        Err(e) => return Err(e),
                    };
                    return ComponentName::new(domain, self.service, version);
                }
            }
        }
        Err(Status::invalid_argument("invalid-component-name"))
    }

    /// If the domain, version, and pod ID are all explicitly present and valid,
    /// consume self and return an equivalent [`PodName`].
    /// Pod names are always fully-qualified.
    pub fn pod(self) -> (res: Result<PodName, Status>)
        ensures
            status_result(res) == pod_spec(self@),
    {
        if let Some(domain) = self.domain {
            if let Some(version) = self.version {
                if let Some(pod) = self.pod {
                    let domain = match DomainUuid::parse(domain) {
                        Ok(d) => d,
                        Err(e) => return Err(e),
                    };
                    let component = match ComponentName::new(domain, self.service, version) {
                        Ok(c) => c,
                        Err(e) => return Err(e),
                    };
                    return match parse_hex_usize(pod) {
                        Some(id) => Ok(PodName::new(component, id)),
                        None => Err(Status::invalid_argument("invalid-pod-id")),
                    };
                }
            }
        }
        Err(Status::invalid_argument("invalid-pod-name"))
    }
}

} // verus!
