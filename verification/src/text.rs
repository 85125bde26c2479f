//! Character classes and searches over character sequences,
//! shared by the name parsers.

use vstd::prelude::*;

verus! {

pub open spec fn is_digit(c: char) -> bool {
    '0' <= c && c <= '9'
}

pub open spec fn is_lower(c: char) -> bool {
    'a' <= c && c <= 'z'
}

pub open spec fn is_upper(c: char) -> bool {
    'A' <= c && c <= 'Z'
}

pub open spec fn is_letter(c: char) -> bool {
    is_lower(c) || is_upper(c)
}

pub open spec fn is_alnum(c: char) -> bool {
    is_digit(c) || is_letter(c)
}

pub fn digit(c: char) -> (b: bool)
    ensures
        b == is_digit(c),
{
    '0' <= c && c <= '9'
}

pub fn letter(c: char) -> (b: bool)
    ensures
        b == is_letter(c),
{
    ('a' <= c && c <= 'z') || ('A' <= c && c <= 'Z')
}

pub fn alnum(c: char) -> (b: bool)
    ensures
        b == is_alnum(c),
{
    digit(c) || letter(c)
}

/// Index of the first occurrence of `a` or `b` in `s`, or `s.len()` if neither occurs.
pub open spec fn first_of2(s: Seq<char>, a: char, b: char) -> int
    decreases s.len(),
{
    if s.len() == 0 {
        0
    } else if s[0] == a || s[0] == b {
        0
    } else {
        1 + first_of2(s.drop_first(), a, b)
    }
}

/// Index of the first occurrence of `c` in `s`, or `s.len()` if it does not occur.
pub open spec fn first_of(s: Seq<char>, c: char) -> int {
    first_of2(s, c, c)
}

/// The index returned by [`first_of2`] is the unique position
/// before which neither character occurs and at which one of them does (if in range).
pub proof fn lemma_first_of2(s: Seq<char>, a: char, b: char, k: int)
    requires
        0 <= k <= s.len(),
        forall|j: int| 0 <= j < k ==> s[j] != a && s[j] != b,
        k < s.len() ==> (s[k] == a || s[k] == b),
    ensures
        first_of2(s, a, b) == k,
    decreases s.len(),
{
    if s.len() > 0 && k > 0 {
        let t = s.drop_first();
        assert forall|j: int| 0 <= j < k - 1 implies t[j] != a && t[j] != b by {
            assert(t[j] == s[j + 1]);
        }
        if k - 1 < t.len() {
            assert(t[k - 1] == s[k]);
        }
        lemma_first_of2(t, a, b, k - 1);
    }
}

/// Characterization of [`first_of2`].
pub proof fn lemma_first_of2_props(s: Seq<char>, a: char, b: char)
    ensures
        0 <= first_of2(s, a, b) <= s.len(),
        forall|j: int| 0 <= j < first_of2(s, a, b) ==> s[j] != a && s[j] != b,
        first_of2(s, a, b) < s.len() ==> (s[first_of2(s, a, b)] == a || s[first_of2(s, a, b)] == b),
    decreases s.len(),
{
    if s.len() > 0 && s[0] != a && s[0] != b {
        let t = s.drop_first();
        lemma_first_of2_props(t, a, b);
        assert forall|j: int| 0 <= j < first_of2(s, a, b) implies s[j] != a && s[j] != b by {
            if j > 0 {
                assert(s[j] == t[j - 1]);
            }
        }
    }
}

/// Position of the first `a` or `b` in `s` at or after `from`, or `s.len()` if there is none.
pub fn find2(s: &[char], from: usize, a: char, b: char) -> (i: usize)
    requires
        from <= s.len(),
    ensures
        from <= i <= s.len(),
        i - from == first_of2(s@.subrange(from as int, s.len() as int), a, b),
{
    let mut i = from;
    while i < s.len() && s[i] != a && s[i] != b
        invariant
            from <= i <= s.len(),
            forall|j: int| from <= j < i ==> s@[j] != a && s@[j] != b,
        decreases s.len() - i,
    {
        i = i + 1;
    }
    proof {
        let t = s@.subrange(from as int, s.len() as int);
        assert forall|j: int| 0 <= j < i - from implies t[j] != a && t[j] != b by {
            assert(t[j] == s@[from + j]);
        }
        lemma_first_of2(t, a, b, i - from);
    }
    i
}

/// Position of the first `c` in `s` at or after `from`, or `s.len()` if there is none.
pub fn find(s: &[char], from: usize, c: char) -> (i: usize)
    requires
        from <= s.len(),
    ensures
        from <= i <= s.len(),
        i - from == first_of(s@.subrange(from as int, s.len() as int), c),
{
    find2(s, from, c, c)
}

/// The three-or-four-part split of a name:
///     [ domain ':' ] service-name [ '@' version [ '#' pod-id ] ]
pub struct NameParts {
    pub domain: Option<Seq<char>>,
    pub service: Seq<char>,
    pub version: Option<Seq<char>>,
    pub pod: Option<Seq<char>>,
}

/// Split the part after the '@' into a version (always present) and possibly a pod ID.
pub open spec fn version_and_pod(v: Seq<char>) -> (Seq<char>, Option<Seq<char>>) {
    let i = first_of(v, '#');
    if i < v.len() {
        (v.subrange(0, i), Some(v.subrange(i + 1, v.len() as int)))
    } else {
        (v, None)
    }
}

/// Permissive split of a name at its first separators.
/// A domain is present iff a ':' comes before any '@';
/// a version is present iff an '@' follows the domain (if any);
/// a pod ID is present iff a '#' follows the '@'.
pub open spec fn split_name_spec(s: Seq<char>) -> NameParts {
    let i = first_of2(s, ':', '@');
    if i == s.len() {
        NameParts { domain: None, service: s, version: None, pod: None }
    } else if s[i] == ':' {
        let rest = s.subrange(i + 1, s.len() as int);
        let j = first_of(rest, '@');
        if j == rest.len() {
            NameParts { domain: Some(s.subrange(0, i)), service: rest, version: None, pod: None }
        } else {
            let (v, p) = version_and_pod(rest.subrange(j + 1, rest.len() as int));
            NameParts {
                domain: Some(s.subrange(0, i)),
                service: rest.subrange(0, j),
                version: Some(v),
                pod: p,
            }
        }
    } else {
        let (v, p) = version_and_pod(s.subrange(i + 1, s.len() as int));
        NameParts { domain: None, service: s.subrange(0, i), version: Some(v), pod: p }
    }
}

/// The parts of a name written `domain ':' service '@' version`, followed by nothing or by
/// `'#' pod`.
pub open spec fn split_parts(d: Seq<char>, service: Seq<char>, version: Seq<char>, tail: Seq<char>) -> NameParts {
    NameParts {
        domain: Some(d),
        service,
        version: Some(version),
        pod: if tail.len() == 0 {
            None
        } else {
            Some(tail.subrange(1, tail.len() as int))
        },
    }
}

/// A name written `domain ':' service '@' version` and then nothing or `'#' pod` splits
/// back into those parts, when the domain holds no `:` or `@`, the service no `@` and the
/// version no `#`.
pub proof fn lemma_split_name_parts(d: Seq<char>, sv: Seq<char>, v: Seq<char>, tail: Seq<char>)
    requires
        forall|j: int| 0 <= j < d.len() ==> d[j] != ':' && d[j] != '@',
        forall|j: int| 0 <= j < sv.len() ==> sv[j] != '@',
        forall|j: int| 0 <= j < v.len() ==> v[j] != '#',
        tail.len() == 0 || tail[0] == '#',
    ensures
        split_name_spec(d + seq![':'] + sv + seq!['@'] + v + tail) == split_parts(d, sv, v, tail),
{
    let text = d + seq![':'] + sv + seq!['@'] + v + tail;
    let dl = d.len() as int;
    let sl = sv.len() as int;
    let vl = v.len() as int;
    assert forall|j: int| 0 <= j < dl implies text[j] != ':' && text[j] != '@' by {
        assert(text[j] == d[j]);
    }
    assert(text[dl] == ':');
    lemma_first_of2(text, ':', '@', dl);
    let rest = text.subrange(dl + 1, text.len() as int);
    assert(rest =~= sv + seq!['@'] + v + tail);
    assert forall|j: int| 0 <= j < sl implies rest[j] != '@' by {
        assert(rest[j] == sv[j]);
    }
    assert(rest[sl] == '@');
    lemma_first_of2(rest, '@', '@', sl);
    assert(rest.subrange(0, sl) =~= sv);
    let after = rest.subrange(sl + 1, rest.len() as int);
    assert(after =~= v + tail);
    assert forall|j: int| 0 <= j < vl implies after[j] != '#' by {
        assert(after[j] == v[j]);
    }
    if tail.len() == 0 {
        lemma_first_of2(after, '#', '#', vl);
        assert(after =~= v);
    } else {
        assert(after[vl] == '#');
        lemma_first_of2(after, '#', '#', vl);
        assert(after.subrange(0, vl) =~= v);
        assert(after.subrange(vl + 1, after.len() as int) =~= tail.subrange(1, tail.len() as int));
    }
    assert(text.subrange(0, dl) =~= d);
}

/// A name written `domain ':' service` splits back into those parts, when the domain holds
/// no `:` or `@` and the service no `@`.
pub proof fn lemma_split_service_parts(d: Seq<char>, sv: Seq<char>)
    requires
        forall|j: int| 0 <= j < d.len() ==> d[j] != ':' && d[j] != '@',
        forall|j: int| 0 <= j < sv.len() ==> sv[j] != '@',
    ensures
        split_name_spec(d + seq![':'] + sv) == (NameParts {
            domain: Some(d),
            service: sv,
            version: None,
            pod: None,
        }),
{
    let text = d + seq![':'] + sv;
    let dl = d.len() as int;
    assert forall|j: int| 0 <= j < dl implies text[j] != ':' && text[j] != '@' by {
        assert(text[j] == d[j]);
    }
    assert(text[dl] == ':');
    lemma_first_of2(text, ':', '@', dl);
    let rest = text.subrange(dl + 1, text.len() as int);
    assert(rest =~= sv);
    assert forall|j: int| 0 <= j < sv.len() implies rest[j] != '@' by {}
    lemma_first_of2(rest, '@', '@', sv.len() as int);
    assert(text.subrange(0, dl) =~= d);
}

pub open spec fn opt_view(o: Option<&str>) -> Option<Seq<char>> {
    match o {
        Some(s) => Some(s@),
        None => None,
    }
}

/// Parse the part of `full` after position `from` (the '@')
/// into a version string (always present) and possibly a pod ID.
pub fn parse_version<'a>(full: &'a str, chars: &[char], from: usize) -> (res: (
    Option<&'a str>,
    Option<&'a str>,
))
    requires
        chars@ == full@,
        from <= chars.len(),
    ensures
        res.0 is Some,
        (opt_view(res.0)->0, opt_view(res.1)) == version_and_pod(
            full@.subrange(from as int, full@.len() as int),
        ),
{
    let n = chars.len();
    let k = find(chars, from, '#');
    let ghost v = full@.subrange(from as int, n as int);
    if k < n {
        let version = full.substring_char(from, k);
        let pod = full.substring_char(k + 1, n);
        assert(version@ =~= v.subrange(0, k - from));
        assert(pod@ =~= v.subrange(k - from + 1, v.len() as int));
        (Some(version), Some(pod))
    } else {
        (Some(full.substring_char(from, n)), None)
    }
}

/// Permissively split a name:
///     [ domain ':' ] service-name [ '@' version [ '#' pod-id ] ]
pub fn split_name<'a>(full: &'a str) -> (res: (
    Option<&'a str>,
    &'a str,
    Option<&'a str>,
    Option<&'a str>,
))
    ensures
        ({
            let p = split_name_spec(full@);
            &&& opt_view(res.0) == p.domain
            &&& res.1@ == p.service
            &&& opt_view(res.2) == p.version
            &&& opt_view(res.3) == p.pod
        }),
{
    let chars = chars_of(full);
    let n = chars.len();
    let i = find2(chars.as_slice(), 0, ':', '@');
    assert(full@.subrange(0, n as int) =~= full@);
    if i == n {
        return (None, full, None, None);
    }
    if chars[i] == ':' {
        let domain = full.substring_char(0, i);
        let start = i + 1;
        let v = find(chars.as_slice(), start, '@');
        let ghost rest = full@.subrange(start as int, n as int);
        if v == n {
            (Some(domain), full.substring_char(start, n), None, None)
        } else {
            let (version, pod) = parse_version(full, chars.as_slice(), v + 1);
            let service = full.substring_char(start, v);
            assert(service@ =~= rest.subrange(0, v - start));
            assert(full@.subrange(v + 1, n as int) =~= rest.subrange(
                v - start + 1,
                rest.len() as int,
            ));
            (Some(domain), service, version, pod)
        }
    } else {
        let (version, pod) = parse_version(full, chars.as_slice(), i + 1);
        (None, full.substring_char(0, i), version, pod)
    }
}

/// The characters of a string slice, in order.
pub fn chars_of(s: &str) -> (res: Vec<char>)
    ensures
        res@ == s@,
{
    let mut res: Vec<char> = Vec::new();
    for c in it: s.chars()
        invariant
            res@ == it.seq().take(it.index() as int),
    {
        res.push(c);
    }
    res
}

/// Whether a string begins with a prefix.
pub fn has_prefix(s: &str, prefix: &str) -> (r: bool)
    ensures
        r == prefix@.is_prefix_of(s@),
{
    let a = chars_of(s);
    let b = chars_of(prefix);
    if b.len() > a.len() {
        return false;
    }
    let mut i: usize = 0;
    while i < b.len()
        invariant
            i <= b@.len() <= a@.len(),
            a@ == s@,
            b@ == prefix@,
            forall|j: int| 0 <= j < i ==> a@[j] == b@[j],
        decreases b@.len() - i,
    {
        if a[i] != b[i] {
            return false;
        }
        i = i + 1;
    }
    assert(b@ =~= a@.subrange(0, b@.len() as int));
    true
}

} // verus!

verus! {

// ---------------------------------------------------------------------------
// Versions
// ---------------------------------------------------------------------------

/// A SemVer numeric identifier: `0` or a positive decimal integer without leading zeros.
pub open spec fn is_numeric_identifier(s: Seq<char>) -> bool {
    &&& s.len() >= 1
    &&& forall|i: int| 0 <= i < s.len() ==> is_digit(s[i])
    &&& (s[0] == '0' ==> s.len() == 1)
}

pub open spec fn is_prerelease_char(c: char) -> bool {
    is_alnum(c) || c == '-'
}

/// A pre-release identifier: either a numeric identifier,
/// or a non-empty run of alphanumerics and dashes
/// that contains at least one non-digit and does not end with a dash.
pub open spec fn is_valid_prerelease(p: Seq<char>) -> bool {
    ||| is_numeric_identifier(p)
    ||| {
        &&& p.len() >= 1
        &&& forall|i: int| 0 <= i < p.len() ==> is_prerelease_char(p[i])
        &&& is_alnum(p[p.len() - 1])
        &&& exists|i: int| 0 <= i < p.len() && !is_digit(p[i])
    }
}

/// A SemVer version `major.minor.patch[-pre-release]` without build metadata,
/// at most 63 characters long (versions are stored as K8s label values).
pub open spec fn is_valid_version(v: Seq<char>) -> bool {
    &&& v.len() <= 63
    &&& {
        let i = first_of(v, '.');
        &&& i < v.len()
        &&& is_numeric_identifier(v.subrange(0, i))
        &&& {
            let r = v.subrange(i + 1, v.len() as int);
            let j = first_of(r, '.');
            &&& j < r.len()
            &&& is_numeric_identifier(r.subrange(0, j))
            &&& {
                let t = r.subrange(j + 1, r.len() as int);
                let k = first_of(t, '-');
                &&& is_numeric_identifier(t.subrange(0, k))
                &&& (k < t.len() ==> is_valid_prerelease(t.subrange(k + 1, t.len() as int)))
            }
        }
    }
}

fn numeric_identifier(s: &[char], lo: usize, hi: usize) -> (b: bool)
    requires
        lo <= hi <= s.len(),
    ensures
        b == is_numeric_identifier(s@.subrange(lo as int, hi as int)),
{
    let ghost t = s@.subrange(lo as int, hi as int);
    if lo == hi {
        return false;
    }
    if s[lo] == '0' && hi - lo != 1 {
        assert(t[0] == s@[lo as int]);
        return false;
    }
    let mut i = lo;
    while i < hi
        invariant
            lo <= i <= hi,
            hi <= s.len(),
            t == s@.subrange(lo as int, hi as int),
            forall|j: int| lo <= j < i ==> is_digit(s@[j]),
        decreases hi - i,
    {
        if !digit(s[i]) {
            assert(t[i - lo] == s@[i as int]);
            return false;
        }
        i = i + 1;
    }
    assert forall|j: int| 0 <= j < t.len() implies is_digit(t[j]) by {
        assert(t[j] == s@[lo + j]);
    }
    assert(t[0] == s@[lo as int]);
    true
}

fn prerelease(s: &[char], lo: usize, hi: usize) -> (b: bool)
    requires
        lo <= hi <= s.len(),
    ensures
        b == is_valid_prerelease(s@.subrange(lo as int, hi as int)),
{
    let ghost t = s@.subrange(lo as int, hi as int);
    if numeric_identifier(s, lo, hi) {
        return true;
    }
    if lo == hi {
        return false;
    }
    if !alnum(s[hi - 1]) {
        assert(t[t.len() - 1] == s@[hi - 1]);
        return false;
    }
    let mut i = lo;
    let mut non_digit = false;
    while i < hi
        invariant
            lo <= i <= hi,
            hi <= s.len(),
            t == s@.subrange(lo as int, hi as int),
            forall|j: int| lo <= j < i ==> is_prerelease_char(s@[j]),
            non_digit <==> exists|j: int| lo <= j < i && !is_digit(s@[j]),
        decreases hi - i,
    {
        let c = s[i];
        if !(alnum(c) || c == '-') {
            assert(t[i - lo] == s@[i as int]);
            return false;
        }
        if !digit(c) {
            non_digit = true;
        }
        i = i + 1;
    }
    assert forall|j: int| 0 <= j < t.len() implies is_prerelease_char(t[j]) by {
        assert(t[j] == s@[lo + j]);
    }
    assert(t[t.len() - 1] == s@[hi - 1]);
    if non_digit {
        let ghost w = choose|j: int| lo <= j < i && !is_digit(s@[j]);
        assert(t[w - lo] == s@[w]);
    } else {
        assert forall|j: int| 0 <= j < t.len() implies is_digit(t[j]) by {
            assert(t[j] == s@[lo + j]);
        }
    }
    non_digit
}

/// Predicate for valid version strings: see [`is_valid_version`].
pub fn valid_version(version: &str) -> (b: bool)
    ensures
        b == is_valid_version(version@),
{
    let s = chars_of(version);
    let n = s.len();
    if n > 63 {
        return false;
    }
    let ghost v = version@;
    assert(v.subrange(0, n as int) =~= v);
    let i = find(s.as_slice(), 0, '.');
    if i == n {
        return false;
    }
    if !numeric_identifier(s.as_slice(), 0, i) {
        return false;
    }
    let ghost r = v.subrange(i + 1, n as int);
    let j = find(s.as_slice(), i + 1, '.');
    if j == n {
        return false;
    }
    assert(r.subrange(0, j - i - 1) =~= v.subrange(i + 1, j as int));
    if !numeric_identifier(s.as_slice(), i + 1, j) {
        return false;
    }
    let ghost t = r.subrange(j - i, r.len() as int);
    assert(t =~= v.subrange(j + 1, n as int));
    let k = find(s.as_slice(), j + 1, '-');
    assert(t.subrange(0, k - j - 1) =~= v.subrange(j + 1, k as int));
    if !numeric_identifier(s.as_slice(), j + 1, k) {
        return false;
    }
    if k == n {
        true
    } else {
        assert(t.subrange(k - j, t.len() as int) =~= v.subrange(k + 1, n as int));
        prerelease(s.as_slice(), k + 1, n)
    }
}

// ---------------------------------------------------------------------------
// Hexadecimal numbers
// ---------------------------------------------------------------------------

pub open spec fn is_hex_digit(c: char) -> bool {
    is_digit(c) || ('a' <= c && c <= 'f') || ('A' <= c && c <= 'F')
}

pub open spec fn hex_digit_value(c: char) -> nat {
    if is_digit(c) {
        (c as int - '0' as int) as nat
    } else if 'a' <= c && c <= 'f' {
        (c as int - 'a' as int + 10) as nat
    } else if 'A' <= c && c <= 'F' {
        (c as int - 'A' as int + 10) as nat
    } else {
        0
    }
}

/// The value of a sequence of hexadecimal digits, most significant first.
pub open spec fn hex_value(s: Seq<char>) -> nat
    decreases s.len(),
{
    if s.len() == 0 {
        0
    } else {
        hex_value(s.drop_last()) * 16 + hex_digit_value(s.last())
    }
}

/// The digits that `usize::from_str_radix(s, 16)` reads: all of `s`, after one optional '+'.
pub open spec fn radix16_digits(s: Seq<char>) -> Seq<char> {
    if s.len() >= 1 && s[0] == '+' {
        s.drop_first()
    } else {
        s
    }
}

/// What `usize::from_str_radix(s, 16)` accepts:
/// an optional '+', then one or more hexadecimal digits (either case)
/// whose value fits in a `usize`.
pub open spec fn hex_usize(s: Seq<char>) -> Option<usize> {
    let d = radix16_digits(s);
    if d.len() >= 1 && (forall|i: int| 0 <= i < d.len() ==> is_hex_digit(d[i])) && hex_value(d)
        <= usize::MAX {
        Some(hex_value(d) as usize)
    } else {
        None
    }
}

pub proof fn lemma_hex_value_prefix(d: Seq<char>, i: int)
    requires
        0 <= i <= d.len(),
    ensures
        hex_value(d.subrange(0, i)) <= hex_value(d),
    decreases d.len(),
{
    if i < d.len() {
        let p = d.drop_last();
        lemma_hex_value_prefix(p, i);
        assert(p.subrange(0, i) =~= d.subrange(0, i));
    } else {
        assert(d.subrange(0, i) =~= d);
    }
}

fn hex_digit(c: char) -> (res: Option<usize>)
    ensures
        res is Some <==> is_hex_digit(c),
        res matches Some(v) ==> v == hex_digit_value(c),
{
    if '0' <= c && c <= '9' {
        Some(((c as u32) - ('0' as u32)) as usize)
    } else if 'a' <= c && c <= 'f' {
        Some(((c as u32) - ('a' as u32) + 10) as usize)
    } else if 'A' <= c && c <= 'F' {
        Some(((c as u32) - ('A' as u32) + 10) as usize)
    } else {
        None
    }
}

/// Parse a hexadecimal pod ID the way `usize::from_str_radix(s, 16)` does.
pub fn parse_hex_usize(s: &str) -> (res: Option<usize>)
    ensures
        res == hex_usize(s@),
{
    let c = chars_of(s);
    let n = c.len();
    let start: usize = if n >= 1 && c[0] == '+' {
        1
    } else {
        0
    };
    let ghost d = radix16_digits(s@);
    assert(d =~= c@.subrange(start as int, n as int));
    if start >= n {
        return None;
    }
    let mut acc: usize = 0;
    let mut i = start;
    while i < n
        invariant
            start <= i <= n,
            n == c.len(),
            c@ == s@,
            d == radix16_digits(s@),
            d == c@.subrange(start as int, n as int),
            acc == hex_value(c@.subrange(start as int, i as int)),
            forall|j: int| start <= j < i ==> is_hex_digit(c@[j]),
        decreases n - i,
    {
        let ghost prefix = c@.subrange(start as int, i + 1);
        assert(prefix.drop_last() =~= c@.subrange(start as int, i as int));
        assert(prefix.last() == c@[i as int]);
        let v = match hex_digit(c[i]) {
            Some(v) => v,
            None => {
                assert(d[i - start] == c@[i as int]);
                assert(!is_hex_digit(d[i - start]));
                return None;
            },
        };
        let next = match acc.checked_mul(16) {
            Some(m) => m.checked_add(v),
            None => None,
        };
        match next {
            Some(x) => {
                acc = x;
            },
            None => {
                proof {
                    assert(d.subrange(0, i + 1 - start) =~= prefix);
                    assert(hex_value(prefix) == acc * 16 + v);
                    assert(acc * 16 + v > usize::MAX);
                    lemma_hex_value_prefix(d, i + 1 - start);
                }
                return None;
            },
        }
        i = i + 1;
    }
    assert(c@.subrange(start as int, n as int) =~= d);
    assert forall|j: int| 0 <= j < d.len() implies is_hex_digit(d[j]) by {
        assert(d[j] == c@[start + j]);
    }
    Some(acc)
}

pub open spec fn lower_hex_digits() -> Seq<char> {
    seq!['0', '1', '2', '3', '4', '5', '6', '7', '8', '9', 'a', 'b', 'c', 'd', 'e', 'f']
}

pub open spec fn upper_hex_digits() -> Seq<char> {
    seq!['0', '1', '2', '3', '4', '5', '6', '7', '8', '9', 'A', 'B', 'C', 'D', 'E', 'F']
}

pub open spec fn hex_char(d: nat, upper: bool) -> char {
    if upper {
        upper_hex_digits()[d as int]
    } else {
        lower_hex_digits()[d as int]
    }
}

/// The hexadecimal numeral of `n`, most significant digit first, without leading zeros.
pub open spec fn hex_string(n: nat, upper: bool) -> Seq<char>
    decreases n,
{
    if n < 16 {
        seq![hex_char(n, upper)]
    } else {
        hex_string(n / 16, upper).push(hex_char(n % 16, upper))
    }
}

/// Append the hexadecimal digit `d` to `out`.
pub fn push_hex_digit(out: &mut String, d: usize, upper: bool)
    requires
        d < 16,
    ensures
        final(out)@ == old(out)@.push(hex_char(d as nat, upper)),
{
    let digits = if upper {
        "0123456789ABCDEF"
    } else {
        "0123456789abcdef"
    };
    proof {
        reveal_strlit("0123456789ABCDEF");
        reveal_strlit("0123456789abcdef");
        if upper {
            assert(digits@ =~= upper_hex_digits());
        } else {
            assert(digits@ =~= lower_hex_digits());
        }
    }
    let ch = digits.substring_char(d, d + 1);
    out.append(ch);
    assert(final(out)@ =~= old(out)@.push(hex_char(d as nat, upper)));
}

/// Append the hexadecimal numeral of `n` to `out`.
pub fn push_hex(out: &mut String, n: usize, upper: bool)
    ensures
        final(out)@ == old(out)@ + hex_string(n as nat, upper),
    decreases n,
{
    if n < 16 {
        push_hex_digit(out, n, upper);
        assert(final(out)@ =~= old(out)@ + hex_string(n as nat, upper));
    } else {
        push_hex(out, n / 16, upper);
        push_hex_digit(out, n % 16, upper);
        assert(final(out)@ =~= old(out)@ + hex_string(n as nat, upper));
    }
}

/// The decimal numeral of `n`, most significant digit first, without leading zeros.
pub open spec fn decimal_string(n: nat) -> Seq<char>
    decreases n,
{
    if n < 10 {
        seq![hex_char(n, false)]
    } else {
        decimal_string(n / 10).push(hex_char(n % 10, false))
    }
}

/// Append the decimal numeral of `n` to `out`.
pub fn push_decimal(out: &mut String, n: usize)
    ensures
        final(out)@ == old(out)@ + decimal_string(n as nat),
    decreases n,
{
    if n < 10 {
        push_hex_digit(out, n, false);
        assert(final(out)@ =~= old(out)@ + decimal_string(n as nat));
    } else {
        push_decimal(out, n / 10);
        push_hex_digit(out, n % 10, false);
        assert(final(out)@ =~= old(out)@ + decimal_string(n as nat));
    }
}

/// A hexadecimal digit character reads back as its value.
pub proof fn lemma_hex_char(d: nat, upper: bool)
    requires
        d < 16,
    ensures
        is_hex_digit(hex_char(d, upper)),
        hex_digit_value(hex_char(d, upper)) == d,
        is_alnum(hex_char(d, upper)),
{
    let h = if upper {
        upper_hex_digits()
    } else {
        lower_hex_digits()
    };
    assert(hex_char(d, upper) == h[d as int]);
    if d == 0 {
        assert(h[0] == '0');
    } else if d == 1 {
        assert(h[1] == '1');
    } else if d == 2 {
        assert(h[2] == '2');
    } else if d == 3 {
        assert(h[3] == '3');
    } else if d == 4 {
        assert(h[4] == '4');
    } else if d == 5 {
        assert(h[5] == '5');
    } else if d == 6 {
        assert(h[6] == '6');
    } else if d == 7 {
        assert(h[7] == '7');
    } else if d == 8 {
        assert(h[8] == '8');
    } else if d == 9 {
        assert(h[9] == '9');
    } else if d == 10 {
        assert(h[10] == 'a' || h[10] == 'A');
    } else if d == 11 {
        assert(h[11] == 'b' || h[11] == 'B');
    } else if d == 12 {
        assert(h[12] == 'c' || h[12] == 'C');
    } else if d == 13 {
        assert(h[13] == 'd' || h[13] == 'D');
    } else if d == 14 {
        assert(h[14] == 'e' || h[14] == 'E');
    } else {
        assert(h[15] == 'f' || h[15] == 'F');
    }
}

/// The hexadecimal numeral of a number: its digits, none a `+`, read back as the number.
#[verifier::spinoff_prover]
pub proof fn lemma_hex_string_digits(n: nat, upper: bool)
    ensures
        hex_string(n, upper).len() >= 1,
        forall|i: int|
            0 <= i < hex_string(n, upper).len() ==> #[trigger] is_hex_digit(hex_string(n, upper)[i])
                && is_alnum(hex_string(n, upper)[i]),
        hex_value(hex_string(n, upper)) == n,
    decreases n,
{
    if n < 16 {
        lemma_hex_char(n, upper);
        let s = hex_string(n, upper);
        assert(s.drop_last() =~= Seq::<char>::empty());
        assert(hex_value(s.drop_last()) == 0);
        assert(s.last() == hex_char(n, upper));
        assert(hex_value(s) == hex_value(s.drop_last()) * 16 + hex_digit_value(s.last()));
    } else {
        lemma_hex_string_digits(n / 16, upper);
        lemma_hex_char(n % 16, upper);
        let s = hex_string(n, upper);
        assert(s.drop_last() =~= hex_string(n / 16, upper));
        assert(s.last() == hex_char(n % 16, upper));
        assert(hex_value(s) == hex_value(s.drop_last()) * 16 + hex_digit_value(s.last()));
        assert forall|i: int| 0 <= i < s.len() implies #[trigger] is_hex_digit(s[i]) && is_alnum(s[i]) by {
            if i < s.len() - 1 {
                assert(s[i] == hex_string(n / 16, upper)[i]);
                assert(is_hex_digit(hex_string(n / 16, upper)[i]));
            } else {
                assert(s[i] == hex_char(n % 16, upper));
            }
        }
    }
}

/// Reading the hexadecimal numeral of a number gives the number back.
pub proof fn lemma_hex_usize_roundtrip(n: usize, upper: bool)
    ensures
        hex_usize(hex_string(n as nat, upper)) == Some(n),
{
    lemma_hex_string_digits(n as nat, upper);
    let s = hex_string(n as nat, upper);
    assert(is_hex_digit(s[0]));
}

/// The characters of a numeric identifier are digits.
pub proof fn lemma_numeric_chars(s: Seq<char>)
    requires
        is_numeric_identifier(s),
    ensures
        forall|i: int| 0 <= i < s.len() ==> is_alnum(#[trigger] s[i]),
{
}

/// A valid version holds only ASCII alphanumerics, dots and dashes.
pub proof fn lemma_version_chars(v: Seq<char>)
    requires
        is_valid_version(v),
    ensures
        forall|x: int| 0 <= x < v.len() ==> #[trigger] is_alnum(v[x]) || v[x] == '.' || v[x] == '-',
{
    let i = first_of(v, '.');
    lemma_first_of2_props(v, '.', '.');
    let r = v.subrange(i + 1, v.len() as int);
    let j = first_of(r, '.');
    lemma_first_of2_props(r, '.', '.');
    let t = r.subrange(j + 1, r.len() as int);
    let k = first_of(t, '-');
    lemma_first_of2_props(t, '-', '-');
    let a = v.subrange(0, i);
    let b = r.subrange(0, j);
    let c = t.subrange(0, k);
    lemma_numeric_chars(a);
    lemma_numeric_chars(b);
    lemma_numeric_chars(c);
    let tail_ok = forall|y: int| 0 <= y < t.len() ==> #[trigger] is_alnum(t[y]) || t[y] == '.' || t[y] == '-';
    assert(tail_ok) by {
        assert forall|y: int| 0 <= y < t.len() implies #[trigger] is_alnum(t[y]) || t[y] == '.' || t[y] == '-' by {
            if y < k {
                assert(t[y] == c[y]);
            } else if y > k {
                let p = t.subrange(k + 1, t.len() as int);
                assert(t[y] == p[y - k - 1]);
                if is_numeric_identifier(p) {
                    lemma_numeric_chars(p);
                }
            }
        }
    }
    assert forall|x: int| 0 <= x < v.len() implies #[trigger] is_alnum(v[x]) || v[x] == '.' || v[x] == '-' by {
        if x < i {
            assert(v[x] == a[x]);
        } else if x > i {
            let y = x - i - 1;
            assert(v[x] == r[y]);
            if y < j {
                assert(r[y] == b[y]);
            } else if y > j {
                assert(r[y] == t[y - j - 1]);
            }
        }
    }
}

} // verus!
