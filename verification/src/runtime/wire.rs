//! The Protobuf wire format: base-128 varints, zig-zag integers and little-endian fixed integers.
//!
//! Varints are read, written and measured by `prost`; their meaning is stated here.

use vstd::prelude::*;

verus! {

/// The bytes of `v` as a base-128 varint, least significant group first;
/// every byte but the last has its high bit set.
pub open spec fn varint_bytes(v: nat) -> Seq<u8>
    decreases v,
{
    if v < 128 {
        seq![v as u8]
    } else {
        seq![(v % 128 + 128) as u8] + varint_bytes(v / 128)
    }
}

/// The number of bytes of `v` as a varint.
pub open spec fn varint_len(v: nat) -> nat {
    varint_bytes(v).len()
}

/// The index of the first byte of `b` whose high bit is clear,
/// if one is among the first `budget` bytes.
pub open spec fn varint_last(b: Seq<u8>, budget: nat) -> Option<nat>
    decreases budget,
{
    if budget == 0 || b.len() == 0 {
        None
    } else if b[0] < 128 {
        Some(0)
    } else {
        match varint_last(b.drop_first(), (budget - 1) as nat) {
            Some(k) => Some(k + 1),
            None => None,
        }
    }
}

/// The number whose base-128 digits, least significant first, are the low seven bits of `b`.
pub open spec fn leb128(b: Seq<u8>) -> nat
    decreases b.len(),
{
    if b.len() == 0 {
        0
    } else {
        (b[0] % 128) as nat + 128 * leb128(b.drop_first())
    }
}

/// A varint read from the front of `b`: its value and how many bytes it takes.
/// It ends within ten bytes, and a tenth byte may only carry the top bit of 64.
pub open spec fn varint_read(b: Seq<u8>) -> Option<(nat, nat)> {
    match varint_last(b, 10) {
        Some(k) => if k == 9 && b[9] >= 2 {
            None
        } else {
            Some((leb128(b.take((k + 1) as int)), k + 1))
        },
        None => None,
    }
}

/// `128` to the power `k`.
pub open spec fn pow128(k: nat) -> nat
    decreases k,
{
    if k == 0 {
        1
    } else {
        128 * pow128((k - 1) as nat)
    }
}

/// Reads a varint from the front of `bytes` (`prost::encoding::decode_varint`):
/// its value and the bytes after it, or `None` where `bytes` holds no valid varint.
#[verifier::external_body]
fn prost_decode_varint<'a>(bytes: &'a [u8]) -> (r: Option<(u64, &'a [u8])>)
    ensures
        match varint_read(bytes@) {
            Some((v, n)) => r matches Some((x, rest)) && x == v && rest@ == bytes@.skip(n as int),
            None => r is None,
        },
{
    let mut rest = bytes;
    match prost::encoding::decode_varint(&mut rest) {
        Ok(v) => Some((v, rest)),
        Err(_) => None,
    }
}

/// Appends the varint bytes of `v` (`prost::encoding::encode_varint`).
#[verifier::external_body]
fn prost_encode_varint(v: u64, buf: &mut Vec<u8>)
    ensures
        final(buf)@ == old(buf)@ + varint_bytes(v as nat),
{
    prost::encoding::encode_varint(v, buf)
}

/// The number of bytes of `v` as a varint (`prost::encoding::encoded_len_varint`).
#[verifier::external_body]
fn prost_encoded_len_varint(v: u64) -> (n: usize)
    ensures
        n == varint_len(v as nat),
{
    prost::encoding::encoded_len_varint(v)
}

/// Below `2 * 128^(k-1)`, a varint takes at most `k` bytes, and a `k`-th byte is 0 or 1.
proof fn lemma_varint_bound(v: nat, k: nat)
    requires
        k >= 1,
        v < 2 * pow128((k - 1) as nat),
    ensures
        1 <= varint_len(v) <= k,
        varint_len(v) == k ==> varint_bytes(v).last() < 2,
    decreases v,
{
    if v >= 128 {
        if k == 1 {
            assert(false);
        }
        assert(pow128((k - 1) as nat) == 128 * pow128((k - 2) as nat));
        lemma_varint_bound(v / 128, (k - 1) as nat);
        assert(varint_bytes(v) == seq![(v % 128 + 128) as u8] + varint_bytes(v / 128));
    }
}

/// The shape of a varint: its bytes read back as its value, the last byte alone has
/// its high bit clear, and a 64-bit value takes at most ten bytes.
pub proof fn lemma_varint_bytes(v: nat)
    ensures
        leb128(varint_bytes(v)) == v,
        varint_bytes(v).len() >= 1,
        varint_bytes(v).last() < 128,
        forall|i: int| 0 <= i < varint_bytes(v).len() - 1 ==> varint_bytes(v)[i] >= 128,
        v < 0x1_0000_0000_0000_0000 ==> varint_len(v) <= 10 && (varint_len(v) == 10
            ==> varint_bytes(v).last() < 2),
    decreases v,
{
    let b = varint_bytes(v);
    if v >= 128 {
        lemma_varint_bytes(v / 128);
        assert(b.drop_first() == varint_bytes(v / 128));
        assert(b[0] == v % 128 + 128);
        assert(v == v % 128 + 128 * (v / 128));
        assert(leb128(b) == (b[0] % 128) as nat + 128 * leb128(b.drop_first()));
    } else {
        assert(b.drop_first() =~= Seq::<u8>::empty());
        assert(leb128(b.drop_first()) == 0);
        assert(b[0] == v);
        assert(leb128(b) == (b[0] % 128) as nat + 128 * leb128(b.drop_first()));
    }
    if v < 0x1_0000_0000_0000_0000 {
        assert(2 * pow128(9) == 0x1_0000_0000_0000_0000) by {
            reveal_with_fuel(pow128, 10);
        }
        lemma_varint_bound(v, 10);
    }
}

/// What `varint_last` finds lies within the bytes and the budget.
pub proof fn lemma_varint_last_bound(b: Seq<u8>, budget: nat)
    ensures
        varint_last(b, budget) matches Some(k) ==> k < b.len() && k < budget && b[k as int] < 128,
    decreases budget,
{
    if budget > 0 && b.len() > 0 && b[0] >= 128 {
        lemma_varint_last_bound(b.drop_first(), (budget - 1) as nat);
    }
}

/// `varint_last` on bytes that begin with a whole varint finds its last byte.
proof fn lemma_varint_last(v: nat, rest: Seq<u8>, budget: nat)
    requires
        varint_len(v) <= budget,
    ensures
        varint_last(varint_bytes(v) + rest, budget) == Some((varint_len(v) - 1) as nat),
    decreases v,
{
    lemma_varint_bytes(v);
    let b = varint_bytes(v) + rest;
    if v >= 128 {
        lemma_varint_bytes(v / 128);
        assert(b.drop_first() == varint_bytes(v / 128) + rest);
        lemma_varint_last(v / 128, rest, (budget - 1) as nat);
    }
}

/// Law: a varint written for a 64-bit value reads back as that value,
/// whatever bytes follow it, and takes exactly its written length.
pub proof fn lemma_varint_roundtrip(v: u64, rest: Seq<u8>)
    ensures
        varint_read(varint_bytes(v as nat) + rest) == Some((v as nat, varint_len(v as nat))),
{
    let b = varint_bytes(v as nat);
    lemma_varint_bytes(v as nat);
    lemma_varint_last(v as nat, rest, 10);
    let k = (varint_len(v as nat) - 1) as nat;
    assert((b + rest).take((k + 1) as int) == b);
    if k == 9 {
        assert((b + rest)[9] == b.last());
    }
}

/// Reads a varint from `src` at `pos`: its value and the position after it.
pub fn read_varint_at(src: &[u8], pos: usize) -> (r: Option<(u64, usize)>)
    requires
        pos <= src@.len(),
    ensures
        match varint_read(src@.skip(pos as int)) {
            Some((v, n)) => r matches Some((x, p)) && x == v && p == pos + n && p <= src@.len(),
            None => r is None,
        },
{
    let tail = &src[pos..src.len()];
    assert(tail@ == src@.skip(pos as int));
    proof {
        lemma_varint_last_bound(tail@, 10);
    }
    match prost_decode_varint(tail) {
        Some((v, rest)) => {
            let n = tail.len() - rest.len();
            proof {
                let (x, k) = varint_read(tail@).unwrap();
                assert(rest@.len() == tail@.len() - k);
            }
            Some((v, pos + n))
        },
        None => None,
    }
}

/// Appends the varint bytes of `v`.
pub fn write_varint(v: u64, buf: &mut Vec<u8>)
    ensures
        final(buf)@ == old(buf)@ + varint_bytes(v as nat),
{
    prost_encode_varint(v, buf)
}

/// The number of bytes of `v` as a varint: between one and ten.
pub fn varint_length(v: u64) -> (n: usize)
    ensures
        n == varint_len(v as nat),
        1 <= n <= 10,
{
    proof {
        lemma_varint_bytes(v as nat);
    }
    prost_encoded_len_varint(v)
}

/// The integer a zig-zag code stands for: even codes for the naturals, odd ones for the negatives.
pub open spec fn zigzag_decode(n: int) -> int {
    if n % 2 == 0 {
        n / 2
    } else {
        -((n + 1) / 2)
    }
}

/// The zig-zag code of an integer.
pub open spec fn zigzag_encode(v: int) -> int {
    if v >= 0 {
        2 * v
    } else {
        -2 * v - 1
    }
}

/// Law: zig-zag decoding undoes zig-zag encoding.
pub proof fn lemma_zigzag_roundtrip(v: int)
    ensures
        zigzag_decode(zigzag_encode(v)) == v,
{
}

/// The 32-bit zig-zag decoding of `value`.
pub fn sint32_from(value: u32) -> (r: i32)
    ensures
        r as int == zigzag_decode(value as int),
{
    let half = value >> 1;
    let low = value & 1;
    assert(half == value / 2) by (bit_vector)
        requires
            half == value >> 1,
    ;
    assert(low == value % 2) by (bit_vector)
        requires
            low == value & 1,
    ;
    let x = half as i32;
    let mask = -(low as i32);
    let r = x ^ mask;
    if low == 0 {
        assert(x ^ 0i32 == x) by (bit_vector);
    } else {
        assert(x ^ -1i32 == -1i32 - x) by (bit_vector);
    }
    r
}

/// What the 64-bit decoding of `value` gives: the zig-zag decoding where `value` is below
/// `2^63`; above, the code is read as a negative integer first, and halved rounding down.
pub open spec fn sint64_value(value: u64) -> int {
    let v: int = if value < 0x8000_0000_0000_0000 {
        value as int
    } else {
        value - 0x1_0000_0000_0000_0000
    };
    if value % 2 == 0 {
        v / 2
    } else {
        -(v / 2) - 1
    }
}

/// The 64-bit decoding of `value`: the zig-zag formula on `value` read as a signed integer.
pub fn sint64_from(value: u64) -> (r: i64)
    ensures
        r as int == sint64_value(value),
        value < 0x8000_0000_0000_0000 ==> r as int == zigzag_decode(value as int),
{
    let v = value as i64;
    let half = v >> 1;
    let low = v & 1;
    assert(low == value % 2) by (bit_vector)
        requires
            v == value as i64,
            low == v & 1,
    ;
    assert(half as int == (if value < 0x8000_0000_0000_0000 {
        value as int
    } else {
        value - 0x1_0000_0000_0000_0000
    }) / 2) by {
        assert(v >> 1 == v / 2 || v < 0) by (bit_vector);
        if value < 0x8000_0000_0000_0000 {
            assert(v as int == value as int);
            assert(half == v / 2) by (bit_vector)
                requires
                    half == v >> 1,
                    v >= 0,
            ;
        } else {
            assert(v + 0x1_0000_0000_0000_0000 == value) by (bit_vector)
                requires
                    v == value as i64,
                    value >= 0x8000_0000_0000_0000u64,
            ;
            assert(half as int == (v as int) / 2) by (bit_vector)
                requires
                    half == v >> 1,
            ;
        }
    }
    let mask = -low;
    let r = half ^ mask;
    if low == 0 {
        assert(half ^ 0i64 == half) by (bit_vector);
    } else {
        assert(half ^ -1i64 == -1i64 - half) by (bit_vector);
    }
    r
}

} // verus!
