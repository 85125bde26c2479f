//! IP address management: what the runtime computes around its calls to the IPAM plugin.
//!
//! The plugin cannot take pod names, which hold characters like `:` and `@`, as container
//! IDs, so each pod gets an ID made of the SHA-256 digest of its name. The plugin answers
//! an allocation with an address and its subnet prefix length, `10.0.0.1/8`, which is
//! split here.

use sha2::{Digest, Sha256};
use vstd::prelude::*;
use vstd::utf8::encode_utf8;

use crate::runtime::error::{status, Code, Status, StatusView};
use crate::runtime::names::{domain_uuid_text, pod_name_text, DomainUuid, PodName, PodNameView};
use crate::text::{chars_of, find, first_of, is_digit};

verus! {

/// The SHA-256 digest of a sequence of bytes.
pub uninterp spec fn sha256_digest(bytes: Seq<u8>) -> Seq<u8>;

/// `sha2::Sha256::digest`: the SHA-256 digest of the bytes, which is 32 bytes long (the
/// output size of `Sha256`). What the digest is, is only named.
#[verifier::external_body]
fn sha256(bytes: &[u8]) -> (r: Vec<u8>)
    ensures
        r@ == sha256_digest(bytes@),
        r@.len() == 32,
{
    Sha256::digest(bytes).to_vec()
}

/// The container ID made of a 32-byte digest: each half written as a domain UUID is,
/// each byte as two lower-case hexadecimal digits, the low one first.
pub open spec fn digest_container_id(digest: Seq<u8>) -> Seq<char> {
    domain_uuid_text(digest.subrange(0, 16)) + domain_uuid_text(digest.subrange(16, 32))
}

/// The container ID under which the IPAM plugin knows a pod.
pub open spec fn ipam_container_id_spec(pod: PodNameView) -> Seq<char> {
    digest_container_id(sha256_digest(encode_utf8(pod_name_text(pod))))
}

/// The container ID made of a 32-byte digest (see [`digest_container_id`]).
pub fn container_id_from_digest(digest: &Vec<u8>) -> (s: String)
    requires
        digest@.len() == 32,
    ensures
        s@ == digest_container_id(digest@),
{
    let mut lower = [0u8; 16];
    let mut upper = [0u8; 16];
    let mut i: usize = 0;
    while i < 16
        invariant
            i <= 16,
            digest@.len() == 32,
            forall|j: int| 0 <= j < i ==> lower@[j] == digest@[j] && upper@[j] == digest@[16 + j],
        decreases 16 - i,
    {
        lower[i] = digest[i];
        upper[i] = digest[16 + i];
        i = i + 1;
    }
    assert(lower@ =~= digest@.subrange(0, 16));
    assert(upper@ =~= digest@.subrange(16, 32));
    let mut s = DomainUuid::new(&lower).to_string();
    let tail = DomainUuid::new(&upper).to_string();
    s.append(tail.as_str());
    s
}

/// The container ID under which the IPAM plugin knows a pod: made of the SHA-256 digest
/// of the pod's name, since the plugin cannot take the name's `:` and `@`.
pub fn ipam_container_id(pod: &PodName) -> (s: String)
    ensures
        s@ == ipam_container_id_spec(pod@),
{
    let name = pod.to_string();
    let digest = sha256(name.as_str().as_bytes());
    container_id_from_digest(&digest)
}

/// How an address in CIDR notation splits: the address before the first `/`, and the
/// prefix length after it, up to a next `/` if any. `None` when there is no `/`.
pub open spec fn cidr_parts(cidr: Seq<char>) -> Option<(Seq<char>, Seq<char>)> {
    let a = first_of(cidr, '/');
    let rest = cidr.subrange(a + 1, cidr.len() as int);
    if a >= cidr.len() {
        None
    } else {
        Some((cidr.subrange(0, a), rest.subrange(0, first_of(rest, '/'))))
    }
}

/// What [`split_ipam_address`] returns for the addresses the plugin allocated.
pub open spec fn ipam_address_spec(addresses: Seq<Seq<char>>) -> Result<
    (Seq<char>, Seq<char>),
    StatusView,
> {
    if addresses.len() != 1 {
        Err(status(Code::Internal, "ipam-add-multiple-addresses"))
    } else {
        match cidr_parts(addresses[0]) {
            None => Err(status(Code::Internal, "ipam-result-no-subnetmask")),
            Some(parts) => Ok(parts),
        }
    }
}

/// The address and the prefix length text of the one address the plugin allocated (in
/// CIDR notation, `10.0.0.1/8`). Fails unless exactly one address was allocated, or when
/// it has no prefix length.
pub fn split_ipam_address(addresses: &Vec<String>) -> (res: Result<(String, String), Status>)
    ensures
        match res {
            Ok((a, p)) => ipam_address_spec(addresses@.map_values(|s: String| s@)) == Ok::<
                (Seq<char>, Seq<char>),
                StatusView,
            >((a@, p@)),
            Err(e) => ipam_address_spec(addresses@.map_values(|s: String| s@)) == Err::<
                (Seq<char>, Seq<char>),
                StatusView,
            >(e@),
        },
{
    let ghost views = addresses@.map_values(|s: String| s@);
    if addresses.len() != 1 {
        return Err(Status::internal("ipam-add-multiple-addresses"));
    }
    let cidr = addresses[0].as_str();
    assert(views[0] == cidr@);
    let chars = chars_of(cidr);
    let n = chars.len();
    assert(cidr@.subrange(0, n as int) =~= cidr@);
    let a = find(chars.as_slice(), 0, '/');
    if a == n {
        return Err(Status::internal("ipam-result-no-subnetmask"));
    }
    let b = find(chars.as_slice(), a + 1, '/');
    let ghost rest = cidr@.subrange(a + 1, n as int);
    let address = cidr.substring_char(0, a);
    let prefix = cidr.substring_char(a + 1, b);
    assert(prefix@ =~= rest.subrange(0, first_of(rest, '/')));
    Ok((address.to_owned(), prefix.to_owned()))
}

/// The value of a non-empty sequence of decimal digits.
pub open spec fn decimal_value(digits: Seq<char>) -> nat
    decreases digits.len(),
{
    if digits.len() == 0 {
        0
    } else {
        decimal_value(digits.drop_last()) * 10 + (digits.last() as nat - '0' as nat) as nat
    }
}

/// A number's digits, past an optional leading `+`.
pub open spec fn unsigned_digits(s: Seq<char>) -> Seq<char> {
    if s.len() > 0 && s[0] == '+' {
        s.drop_first()
    } else {
        s
    }
}

/// Whether every character is a decimal digit.
pub open spec fn all_digits(s: Seq<char>) -> bool {
    forall|i: int| 0 <= i < s.len() ==> #[trigger] is_digit(s[i])
}

/// A `u8` written in decimal, as `u8::from_str` reads it: an optional `+`, then at least
/// one digit, worth at most 255 (leading zeros allowed).
pub open spec fn u8_from_decimal(s: Seq<char>) -> Option<u8> {
    let digits = unsigned_digits(s);
    if digits.len() == 0 || !all_digits(digits) {
        None
    } else if decimal_value(digits) > 255 {
        None
    } else {
        Some(decimal_value(digits) as u8)
    }
}

/// Appending a digit never makes a decimal value smaller.
proof fn lemma_decimal_value_grows(digits: Seq<char>, k: int)
    requires
        0 <= k <= digits.len(),
        forall|i: int| 0 <= i < digits.len() ==> is_digit(digits[i]),
    ensures
        decimal_value(digits.take(k)) <= decimal_value(digits),
    decreases digits.len() - k,
{
    if k < digits.len() {
        lemma_decimal_value_grows(digits, k + 1);
        assert(digits.take(k + 1).drop_last() =~= digits.take(k));
    } else {
        assert(digits.take(k) =~= digits);
    }
}

/// The prefix length the plugin wrote, as `u8::from_str` reads it.
pub fn parse_prefix_length(text: &str) -> (res: Result<u8, Status>)
    ensures
        u8_from_decimal(text@) matches Some(v) ==> res == Ok::<u8, Status>(v),
        u8_from_decimal(text@) is None ==> (res matches Err(e) && e@ == status(
            Code::Internal,
            "ipam-subnetmask-format",
        )),
{
    let chars = chars_of(text);
    let n = chars.len();
    let start: usize = if n > 0 && chars[0] == '+' {
        1
    } else {
        0
    };
    let ghost digits = unsigned_digits(text@);
    assert(digits =~= chars@.skip(start as int));
    if start == n {
        return Err(Status::internal("ipam-subnetmask-format"));
    }
    // Every character must be a digit, whatever the value.
    let mut i: usize = start;
    while i < n
        invariant
            start <= i <= n,
            n == chars@.len(),
            chars@ == text@,
            digits =~= chars@.skip(start as int),
            digits == unsigned_digits(text@),
            forall|j: int| start <= j < i ==> is_digit(chars@[j]),
        decreases n - i,
    {
        if !('0' <= chars[i] && chars[i] <= '9') {
            assert(!is_digit(digits[i - start]));
            assert(u8_from_decimal(text@) is None);
            return Err(Status::internal("ipam-subnetmask-format"));
        }
        i = i + 1;
    }
    assert forall|j: int| 0 <= j < digits.len() implies is_digit(digits[j]) by {
        assert(digits[j] == chars@[start + j]);
    }
    let mut value: u32 = 0;
    let mut k: usize = start;
    while k < n
        invariant
            start <= k <= n,
            n == chars@.len(),
            chars@ == text@,
            digits =~= chars@.skip(start as int),
            digits == unsigned_digits(text@),
            forall|j: int| 0 <= j < digits.len() ==> is_digit(digits[j]),
            value == decimal_value(digits.take(k - start)),
            value <= 255,
        decreases n - k,
    {
        assert(is_digit(digits[k - start]));
        let c = chars[k];
        let d = (c as u32) - 48;
        assert(digits.take(k - start + 1).drop_last() =~= digits.take(k - start));
        assert(digits[k - start] == chars@[k as int]);
        let next = value * 10 + d;
        if next > 255 {
            proof {
                assert(digits.take(k - start + 1).last() == c);
                assert(decimal_value(digits.take(k - start + 1)) == next);
                lemma_decimal_value_grows(digits, k - start + 1);
                assert(u8_from_decimal(text@) is None);
            }
            return Err(Status::internal("ipam-subnetmask-format"));
        }
        value = next;
        k = k + 1;
    }
    assert(digits.take(n - start) =~= digits);
    Ok(value as u8)
}

} // verus!
