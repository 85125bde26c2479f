//! How the encoder and the decoder agree: what the encoder writes as the payload of a
//! scalar value, the decoder reads back as that value.

use vstd::bytes::{
    lemma_auto_spec_u32_to_from_le_bytes, lemma_auto_spec_u64_to_from_le_bytes,
    spec_u32_to_le_bytes, spec_u64_to_le_bytes,
};
use vstd::prelude::*;
use vstd::utf8::valid_utf8;

use crate::runtime::decode::{
    compile_message_spec, compile_subfields_spec, fields_spec, find_subfield, request_spec,
    scalar_default, MergerV, MessageMerge,
    byte_values, bytes_at, decode_tag_spec, fixed_spec, read_length_spec, read_varint_spec,
    scalar_item_spec, scalar_merge_spec, scalar_wire_type, varint32_spec, wire_type_of,
    DecodeErrorV,
};
use crate::runtime::encode::{
    byte_items, compile_encoders_spec, encode_spec, fields_encode_spec, fields_length_spec,
    find_encoder, length_spec, message_encoder_spec, of_type, scalar_length_spec, subencoders, payload_spec, response_spec, scalar_encode_spec,
    scalar_encoder_spec, scalar_wire, tag_of, EncoderV, MessageEncode,
};
use crate::runtime::schema::{scalar_coding_of, Coding, FieldV, Presence, ScalarCoding, ScalarType};
use crate::runtime::value::Value;
use crate::runtime::wire::{lemma_varint_bytes, lemma_varint_roundtrip, varint_bytes, varint_len, zigzag_decode, zigzag_encode};

verus! {

/// The scalar values the decoder reads back as written: all but negative `int32` values
/// (written as ten-byte varints, which the decoder takes for overflows), `sint64` values
/// whose zig-zag code reaches 2^63 (which it reads as negative codes), and UTF-8 strings
/// that are not valid UTF-8.
pub open spec fn reads_back(t: ScalarType, v: Value) -> bool {
    match (t, v) {
        (ScalarType::Int32, Value::S32(x)) => x >= 0,
        (ScalarType::Sint64, Value::S64(x)) => -0x4000_0000_0000_0000 <= x < 0x4000_0000_0000_0000,
        (ScalarType::StringUtf8, Value::String(b)) => valid_utf8(b),
        _ => true,
    }
}

/// A list of byte values is the list its bytes make.
proof fn lemma_byte_items(items: Seq<Value>)
    requires
        byte_items(items) is Some,
    ensures
        byte_values(byte_items(items)->0) == items,
    decreases items.len(),
{
    if items.len() > 0 {
        let d = items.drop_last();
        lemma_byte_items(d);
        let bs = byte_items(d)->0;
        let b = byte_items(items)->0;
        match items.last() {
            Value::U8(x) => {
                assert(b == bs.push(x));
                assert forall|i: int| 0 <= i < items.len() implies byte_values(b)[i] == items[i] by {
                    if i < items.len() - 1 {
                        assert(byte_values(bs)[i] == d[i]);
                    }
                }
            },
            _ => {},
        }
        assert(byte_values(b) =~= items);
    }
}

/// A varint written for `x` and followed by anything reads back as `x`.
proof fn lemma_varint_at_start(x: u64, rest: Seq<u8>)
    ensures
        varint_read_at_start(x, rest),
{
    lemma_varint_roundtrip(x, rest);
    assert((varint_bytes(x as nat) + rest).skip(0) =~= varint_bytes(x as nat) + rest);
}

/// What [`lemma_varint_at_start`] states.
spec fn varint_read_at_start(x: u64, rest: Seq<u8>) -> bool {
    crate::runtime::wire::varint_read((varint_bytes(x as nat) + rest).skip(0)) == Some(
        (x as nat, varint_len(x as nat)),
    )
}

/// The scalar round trip, as a property of a type, a value, the bytes after it and a limit.
pub open spec fn scalar_reads_back(t: ScalarType, v: Value, rest: Seq<u8>, limit: u32) -> bool {
    let p = payload_spec(t, v)->Ok_0;
    scalar_item_spec(t, p + rest, 0, limit) == Ok::<
        (Value, int, u32),
        crate::runtime::decode::DecodeErrorV,
    >((v, p.len() as int, (limit - p.len()) as u32))
}

/// A length-delimited payload written for some bytes reads back as those bytes.
#[verifier::spinoff_prover]
proof fn lemma_payload_roundtrip(b: Seq<u8>, rest: Seq<u8>, limit: u32)
    requires
        varint_len(b.len()) + b.len() <= limit,
    ensures
        crate::runtime::decode::payload_spec(varint_bytes(b.len()) + b + rest, 0, limit) == Ok::<
            (Seq<u8>, int, u32),
            crate::runtime::decode::DecodeErrorV,
        >((b, (varint_len(b.len()) + b.len()) as int, (limit - varint_len(b.len()) - b.len()) as u32)),
{
    let n = b.len();
    let src = varint_bytes(n) + b + rest;
    lemma_varint_bytes(n);
    lemma_varint_at_start(n as u64, b + rest);
    assert(src =~= varint_bytes(n) + (b + rest));
    assert(src.subrange(varint_len(n) as int, (varint_len(n) + n) as int) =~= b);
}

/// The round trip of bytes and strings: a length, then the contents.
#[verifier::spinoff_prover]
proof fn lemma_length_delimited_roundtrip(t: ScalarType, v: Value, rest: Seq<u8>, limit: u32)
    requires
        of_type(t, v),
        reads_back(t, v),
        v is List || v is String,
        payload_spec(t, v) is Ok,
        payload_spec(t, v)->Ok_0.len() <= limit,
    ensures
        scalar_reads_back(t, v, rest, limit),
{
    match v {
        Value::List(items) => {
            let b = byte_items(items)->0;
            lemma_byte_items(items);
            assert(b.len() == items.len());
            lemma_varint_bytes(b.len());
            lemma_payload_roundtrip(b, rest, limit);
        },
        Value::String(b) => {
            lemma_varint_bytes(b.len());
            lemma_payload_roundtrip(b, rest, limit);
        },
        _ => {},
    }
}

/// The round trip of fixed-width scalars: booleans, fixed and floating-point numbers.
#[verifier::spinoff_prover]
proof fn lemma_fixed_width_roundtrip(t: ScalarType, v: Value, rest: Seq<u8>, limit: u32)
    requires
        of_type(t, v),
        t is Bool || t is Sfixed32 || t is Fixed32 || t is Float || t is Sfixed64 || t is Fixed64
            || t is Double,
        payload_spec(t, v) is Ok,
        payload_spec(t, v)->Ok_0.len() <= limit,
    ensures
        scalar_reads_back(t, v, rest, limit),
{
    let p = payload_spec(t, v)->Ok_0;
    let src = p + rest;
    lemma_auto_spec_u32_to_from_le_bytes();
    lemma_auto_spec_u64_to_from_le_bytes();
    match v {
        Value::Bool(x) => {
            assert(src[0] == p[0]);
            assert(src.subrange(0, 1) =~= p);
        },
        Value::S32(x) => {
            assert(src.subrange(0, 4) =~= p);
            assert(((x as u32) as i32) == x) by (bit_vector);
        },
        Value::U32(x) => {
            assert(src.subrange(0, 4) =~= p);
        },
        Value::S64(x) => {
            assert(src.subrange(0, 8) =~= p);
            assert(((x as u64) as i64) == x) by (bit_vector);
        },
        Value::U64(x) => {
            assert(src.subrange(0, 8) =~= p);
        },
        Value::Float32(bits) => {
            assert(src.subrange(0, 4) =~= p);
        },
        Value::Float64(bits) => {
            assert(src.subrange(0, 8) =~= p);
        },
        _ => {},
    }
}

/// The round trip of varint scalars.
#[verifier::spinoff_prover]
proof fn lemma_varint_scalar_roundtrip(t: ScalarType, v: Value, rest: Seq<u8>, limit: u32)
    requires
        of_type(t, v),
        reads_back(t, v),
        t is Int32 || t is Sint32 || t is Uint32 || t is Int64 || t is Sint64 || t is Uint64,
        payload_spec(t, v) is Ok,
        payload_spec(t, v)->Ok_0.len() <= limit,
    ensures
        scalar_reads_back(t, v, rest, limit),
{
    match v {
        Value::S32(x) => {
            if t is Sint32 {
                let z = zigzag_encode(x as int);
                assert(0 <= z <= u32::MAX);
                lemma_varint_at_start(z as u64, rest);
                assert(zigzag_decode(z) == x);
            } else {
                lemma_varint_at_start(x as u64, rest);
                assert((x as u64) as i32 == x) by (bit_vector)
                    requires
                        x >= 0,
                ;
            }
        },
        Value::U32(x) => {
            lemma_varint_at_start(x as u64, rest);
        },
        Value::S64(x) => {
            if t is Sint64 {
                let z = zigzag_encode(x as int);
                assert(0 <= z < 0x8000_0000_0000_0000);
                lemma_varint_at_start(z as u64, rest);
                assert(zigzag_decode(z) == x);
            } else {
                lemma_varint_at_start(x as u64, rest);
                assert(((x as u64) as i64) == x) by (bit_vector);
            }
        },
        Value::U64(x) => {
            lemma_varint_at_start(x, rest);
        },
        _ => {},
    }
}

/// What the encoder writes as the payload of a scalar value of type `t` (which it holds),
/// followed by any bytes, the decoder reads back as that value when `reads_back` holds and
/// the limit covers the payload: it takes the whole payload and charges its length.
pub proof fn lemma_scalar_roundtrip(t: ScalarType, v: Value, rest: Seq<u8>, limit: u32)
    requires
        of_type(t, v),
        reads_back(t, v),
        payload_spec(t, v) is Ok,
        payload_spec(t, v)->Ok_0.len() <= limit,
    ensures
        scalar_reads_back(t, v, rest, limit),
{
    if v is List || v is String {
        lemma_length_delimited_roundtrip(t, v, rest, limit);
    } else if t is Bool || t is Sfixed32 || t is Fixed32 || t is Float || t is Sfixed64
        || t is Fixed64 || t is Double {
        lemma_fixed_width_roundtrip(t, v, rest, limit);
    } else {
        lemma_varint_scalar_roundtrip(t, v, rest, limit);
    }
}

// ---------------------------------------------------------------------------------------
// Reading after a prefix.

/// A decoding result read after a prefix of `d` bytes: positions move by `d`.
pub open spec fn shifted<T>(r: Result<(T, int, u32), DecodeErrorV>, d: int) -> Result<
    (T, int, u32),
    DecodeErrorV,
> {
    match r {
        Ok((x, p, l)) => Ok((x, p + d, l)),
        Err(e) => Err(e),
    }
}

/// The bytes after a prefix are read as they would be on their own.
proof fn lemma_prefix_bytes(pre: Seq<u8>, s: Seq<u8>, k: int, n: int)
    requires
        0 <= k,
        0 <= n,
    ensures
        k <= s.len() ==> (pre + s).skip(pre.len() + k) == s.skip(k),
        bytes_at(pre + s, pre.len() + k, n) == bytes_at(s, k, n),
{
    if k <= s.len() {
        assert((pre + s).skip(pre.len() + k) =~= s.skip(k));
    }
    if k + n <= s.len() {
        assert((pre + s).subrange(pre.len() + k, pre.len() + k + n) =~= s.subrange(k, k + n));
    }
}

/// Reading a varint after a prefix.
proof fn lemma_prefix_varint(pre: Seq<u8>, s: Seq<u8>, limit: u32, error: &'static str)
    ensures
        read_varint_spec(pre + s, pre.len() as int, limit, error) == shifted(
            read_varint_spec(s, 0, limit, error),
            pre.len() as int,
        ),
{
    lemma_prefix_bytes(pre, s, 0, 0);
}

/// Reading a scalar after a prefix.
#[verifier::spinoff_prover]
pub proof fn lemma_prefix_scalar(t: ScalarType, pre: Seq<u8>, s: Seq<u8>, limit: u32)
    ensures
        scalar_item_spec(t, pre + s, pre.len() as int, limit) == shifted(
            scalar_item_spec(t, s, 0, limit),
            pre.len() as int,
        ),
{
    let d = pre.len() as int;
    lemma_prefix_varint(pre, s, limit, crate::runtime::decode::INVALID_VARINT);
    lemma_prefix_varint(pre, s, limit, crate::runtime::decode::INVALID_LENGTH_VARINT);
    lemma_prefix_bytes(pre, s, 0, 1);
    lemma_prefix_bytes(pre, s, 0, 4);
    lemma_prefix_bytes(pre, s, 0, 8);
    match read_length_spec(s, 0, limit) {
        Ok((n, p, l)) => {
            lemma_prefix_bytes(pre, s, p, n as int);
        },
        Err(_) => {},
    }
    assert(varint32_spec(pre + s, d, limit, i32::MAX as int) == shifted(varint32_spec(s, 0, limit, i32::MAX as int), d));
    assert(varint32_spec(pre + s, d, limit, u32::MAX as int) == shifted(varint32_spec(s, 0, limit, u32::MAX as int), d));
    assert(fixed_spec(pre + s, d, limit, 4) == shifted(fixed_spec(s, 0, limit, 4), d));
    assert(fixed_spec(pre + s, d, limit, 8) == shifted(fixed_spec(s, 0, limit, 8), d));
}

// ---------------------------------------------------------------------------------------
// Scalar fields.

/// The scalar a scalar field's value holds: the value itself under implicit presence,
/// what the option holds under explicit presence.
pub open spec fn field_scalar(c: ScalarCoding, v: Value) -> Value {
    match (c.presence, v) {
        (Presence::Explicit, Value::Option(Some(x))) => *x,
        _ => v,
    }
}

/// The tag the encoder writes for scalar field `number` of coding `c`, when not packed.
pub open spec fn scalar_field_tag(c: ScalarCoding, number: u32) -> u64 {
    tag_of(number, scalar_wire(c.ty))
}

/// The number and wire type of a scalar field's tag read back.
proof fn lemma_tag_fields(c: ScalarCoding, number: u32)
    ensures
        scalar_field_tag(c, number) / 8 == number,
        scalar_field_tag(c, number) % 8 == scalar_wire(c.ty),
        wire_type_of(scalar_wire(c.ty)) == scalar_wire_type(c.ty),
{
    let w = scalar_wire(c.ty);
    assert(0 <= w < 8);
    assert((number * 8 + w) as u64 == number * 8 + w);
    assert((number * 8 + w) / 8 == number && (number * 8 + w) % 8 == w) by (nonlinear_arith)
        requires
            0 <= w < 8,
            number >= 0,
    ;
}

/// What the encoder writes for an implicit or explicit scalar field that it does not
/// leave out: the tag, then the payload of the scalar.
proof fn lemma_scalar_field_written(c: ScalarCoding, tag: u64, v: Value, st: Seq<u32>, out: Seq<u8>)
    requires
        c.presence == Presence::Implicit || c.presence == Presence::Explicit,
        scalar_encode_spec(c, tag, v, st, out) matches Ok((_, w)) && w.len() > out.len(),
    ensures
        of_type(c.ty, field_scalar(c, v)),
        payload_spec(c.ty, field_scalar(c, v)) is Ok,
        scalar_encode_spec(c, tag, v, st, out) == Ok::<_, crate::runtime::encode::EncodeErrorV>(
            (st, out + varint_bytes(tag as nat) + payload_spec(c.ty, field_scalar(c, v))->Ok_0),
        ),
{
}

/// The tag of a scalar field, read where the encoder wrote it.
proof fn lemma_scalar_tag_read(c: ScalarCoding, number: u32, out: Seq<u8>, tail: Seq<u8>, limit: u32)
    requires
        varint_len(scalar_field_tag(c, number) as nat) <= limit,
    ensures
        ({
            let tag = scalar_field_tag(c, number);
            let tl = varint_len(tag as nat);
            decode_tag_spec(out + varint_bytes(tag as nat) + tail, out.len() as int, limit)
                == Ok::<_, DecodeErrorV>(
                (number, scalar_wire_type(c.ty), (out.len() + tl) as int, (limit - tl) as u32),
            )
        }),
{
    let tag = scalar_field_tag(c, number);
    let tb = varint_bytes(tag as nat);
    lemma_tag_fields(c, number);
    assert(out + tb + tail =~= out + (tb + tail));
    lemma_prefix_varint(out, tb + tail, limit, crate::runtime::decode::INVALID_TAG_VARINT);
    lemma_varint_at_start(tag, tail);
}

/// The payload of a scalar field, merged where the encoder wrote it.
proof fn lemma_scalar_payload_merged(c: ScalarCoding, x: Value, pre: Seq<u8>, rest: Seq<u8>, limit: u32, dst: Value)
    requires
        c.presence == Presence::Implicit || c.presence == Presence::Explicit,
        of_type(c.ty, x),
        reads_back(c.ty, x),
        payload_spec(c.ty, x) is Ok,
        payload_spec(c.ty, x)->Ok_0.len() <= limit,
    ensures
        ({
            let b = payload_spec(c.ty, x)->Ok_0;
            let v = if c.presence == Presence::Explicit {
                Value::Option(Some(Box::new(x)))
            } else {
                x
            };
            scalar_merge_spec(c, scalar_wire_type(c.ty), pre + b + rest, pre.len() as int, limit, dst)
                == Ok::<_, DecodeErrorV>((v, (pre.len() + b.len()) as int, (limit - b.len()) as u32))
        }),
{
    let b = payload_spec(c.ty, x)->Ok_0;
    assert(pre + b + rest =~= pre + (b + rest));
    lemma_prefix_scalar(c.ty, pre, b + rest, limit);
    lemma_scalar_roundtrip(c.ty, x, rest, limit);
}

/// A scalar field reads back, wherever it stands in the buffer: where the encoder writes
/// an implicit or explicit scalar field after the bytes `out` (a value it does not leave
/// out), the decoder, reading from there, finds the field's number and wire type in the
/// tag, then merges the payload back into the value, taking all the bytes written and
/// charging them to the limit. `reads_back` leaves out the scalars that the decoder reads
/// otherwise (see [`reads_back`]).
pub proof fn lemma_scalar_field_roundtrip(
    c: ScalarCoding,
    number: u32,
    v: Value,
    st: Seq<u32>,
    out: Seq<u8>,
    rest: Seq<u8>,
    limit: u32,
    dst: Value,
)
    requires
        c.presence == Presence::Implicit || c.presence == Presence::Explicit,
        scalar_encode_spec(c, scalar_field_tag(c, number), v, st, out) matches Ok((_, w))
            && w.len() > out.len() && w.len() - out.len() <= limit,
        reads_back(c.ty, field_scalar(c, v)),
    ensures
        match scalar_encode_spec(c, scalar_field_tag(c, number), v, st, out) {
            Ok((st2, w)) => {
                let tl = varint_len(scalar_field_tag(c, number) as nat);
                &&& st2 == st
                &&& decode_tag_spec(w + rest, out.len() as int, limit) == Ok::<_, DecodeErrorV>(
                    (number, scalar_wire_type(c.ty), (out.len() + tl) as int, (limit - tl) as u32),
                )
                &&& scalar_merge_spec(
                    c,
                    scalar_wire_type(c.ty),
                    w + rest,
                    (out.len() + tl) as int,
                    (limit - tl) as u32,
                    dst,
                ) == Ok::<_, DecodeErrorV>((v, w.len() as int, (limit - (w.len() - out.len())) as u32))
            },
            Err(_) => false,
        },
{
    let tag = scalar_field_tag(c, number);
    let tb = varint_bytes(tag as nat);
    let tl = varint_len(tag as nat);
    let x = field_scalar(c, v);
    lemma_scalar_field_written(c, tag, v, st, out);
    let b = payload_spec(c.ty, x)->Ok_0;
    let w = out + tb + b;
    assert(w + rest =~= out + tb + (b + rest));
    lemma_scalar_tag_read(c, number, out, b + rest, limit);
    assert(w + rest =~= (out + tb) + b + rest);
    lemma_scalar_payload_merged(c, x, out + tb, rest, (limit - tl) as u32, dst);
    if c.presence == Presence::Explicit {
        assert(v == Value::Option(Some(Box::new(x))));
    }
}

// ---------------------------------------------------------------------------------------
// Messages of scalar fields.

/// The scalar coding of a field, if it has a valid one.
pub open spec fn field_coding(f: FieldV) -> Option<ScalarCoding> {
    match f.coding {
        Some(Coding::ScalarCoding(c)) => scalar_coding_of(c as int),
        _ => None,
    }
}

/// The scalar coding of subfield `i` (meaningful where [`scalar_fields`] holds).
pub open spec fn coding_at(fs: Seq<FieldV>, i: int) -> ScalarCoding {
    field_coding(fs[i])->Some_0
}

/// Fields that are all scalars, implicit or explicit, with distinct numbers and names.
pub open spec fn scalar_fields(fs: Seq<FieldV>) -> bool {
    &&& forall|i: int|
        0 <= i < fs.len() ==> (#[trigger] field_coding(fs[i]) matches Some(c) && (c.presence
            == Presence::Implicit || c.presence == Presence::Explicit))
    &&& forall|i: int, j: int| 0 <= i < j < fs.len() ==> #[trigger] fs[i].number != #[trigger] fs[j].number
    &&& forall|i: int, j: int| 0 <= i < j < fs.len() ==> fs[i].name != fs[j].name
}

/// The subfield entries a decoder compiles for scalar fields.
pub open spec fn scalar_entries(fs: Seq<FieldV>) -> Seq<(u32, u32, MergerV)> {
    Seq::new(fs.len(), |i: int| (fs[i].number, i as u32, MergerV::Scalar(coding_at(fs, i))))
}

/// The defaults a decoder compiles for scalar fields.
pub open spec fn scalar_defaults(fs: Seq<FieldV>) -> Seq<(Seq<char>, Value)> {
    Seq::new(fs.len(), |i: int| (fs[i].name, scalar_default(coding_at(fs, i))))
}

/// The named encoders an encoder compiles for scalar fields.
pub open spec fn scalar_encoders(fs: Seq<FieldV>) -> Seq<(Seq<char>, EncoderV)> {
    Seq::new(fs.len(), |i: int| (fs[i].name, scalar_encoder_spec(coding_at(fs, i), fs[i].number)))
}

/// The decoder compiles scalar fields, from index `i` on, into their entries and defaults.
proof fn lemma_compile_scalar_subfields(
    fs: Seq<FieldV>,
    i: int,
)
    requires
        scalar_fields(fs),
        fs.len() <= u32::MAX,
        0 <= i <= fs.len(),
    ensures
        compile_subfields_spec(fs, i, scalar_entries(fs).take(i), scalar_defaults(fs).take(i))
            == Ok::<_, crate::runtime::error::StatusView>((scalar_entries(fs), scalar_defaults(fs))),
    decreases fs.len() - i,
{
    if i == fs.len() {
        assert(scalar_entries(fs).take(i) =~= scalar_entries(fs));
        assert(scalar_defaults(fs).take(i) =~= scalar_defaults(fs));
    } else {
        assert(field_coding(fs[i]) is Some);
        assert(scalar_entries(fs).take(i).push((fs[i].number, i as u32, MergerV::Scalar(coding_at(fs, i))))
            =~= scalar_entries(fs).take(i + 1));
        assert(scalar_defaults(fs).take(i).push((fs[i].name, scalar_default(coding_at(fs, i))))
            =~= scalar_defaults(fs).take(i + 1));
        lemma_compile_scalar_subfields(fs, i + 1);
    }
}

/// The encoder compiles scalar fields, from index `i` on, into their named encoders.
proof fn lemma_compile_scalar_encoders(fs: Seq<FieldV>, i: int)
    requires
        scalar_fields(fs),
        0 <= i <= fs.len(),
    ensures
        compile_encoders_spec(fs, i, false, scalar_encoders(fs).take(i))
            == Ok::<_, crate::runtime::error::StatusView>(scalar_encoders(fs)),
    decreases fs.len() - i,
{
    if i == fs.len() {
        assert(scalar_encoders(fs).take(i) =~= scalar_encoders(fs));
    } else {
        assert(field_coding(fs[i]) is Some);
        assert(scalar_encoders(fs).take(i).push((fs[i].name, scalar_encoder_spec(coding_at(fs, i), fs[i].number)))
            =~= scalar_encoders(fs).take(i + 1));
        lemma_compile_scalar_encoders(fs, i + 1);
    }
}

/// Among scalar fields' entries up to `j`, a field's number finds that field's entry.
proof fn lemma_find_scalar_entry(fs: Seq<FieldV>, j: int, k: int)
    requires
        scalar_fields(fs),
        0 <= k < j <= fs.len(),
    ensures
        find_subfield(scalar_entries(fs).take(j), fs[k].number) == Some(k),
    decreases j,
{
    let e = scalar_entries(fs).take(j);
    if j - 1 != k {
        assert(fs[k].number != fs[j - 1].number);
        assert(e.drop_last() =~= scalar_entries(fs).take(j - 1));
        lemma_find_scalar_entry(fs, j - 1, k);
    }
}

/// Among scalar fields' encoders up to `j`, a field's name finds that field's encoder.
proof fn lemma_find_scalar_encoder(fs: Seq<FieldV>, j: int, k: int)
    requires
        scalar_fields(fs),
        0 <= k < j <= fs.len(),
    ensures
        find_encoder(scalar_encoders(fs).take(j), fs[k].name) == Some(k),
    decreases j,
{
    let e = scalar_encoders(fs).take(j);
    if j - 1 != k {
        assert(fs[k].name != fs[j - 1].name);
        assert(e.drop_last() =~= scalar_encoders(fs).take(j - 1));
        lemma_find_scalar_encoder(fs, j - 1, k);
    }
}

/// The bytes the encoder writes for an implicit or explicit scalar field (none when it
/// leaves the value out).
pub open spec fn field_bytes(c: ScalarCoding, number: u32, v: Value) -> Seq<u8> {
    match scalar_encode_spec(c, scalar_field_tag(c, number), v, seq![], seq![]) {
        Ok((_, w)) => w,
        Err(_) => seq![],
    }
}

/// A field value that reads back: the encoder takes it; where it writes bytes, they hold a
/// scalar that reads back (see [`reads_back`]); where it writes none (a default, or no
/// value), the value is the very default the decoder starts from.
pub open spec fn field_reads_back(c: ScalarCoding, number: u32, v: Value) -> bool {
    &&& scalar_encode_spec(c, scalar_field_tag(c, number), v, seq![], seq![]) is Ok
    &&& field_bytes(c, number, v).len() > 0 ==> reads_back(c.ty, field_scalar(c, v))
    &&& field_bytes(c, number, v).len() == 0 ==> v == scalar_default(c)
}

/// A record of the scalar fields `fs`, in their order and under their names, whose
/// values all read back.
pub open spec fn record_reads_back(fs: Seq<FieldV>, fields: Seq<(Seq<char>, Value)>) -> bool {
    &&& fields.len() == fs.len()
    &&& forall|i: int|
        0 <= i < fs.len() ==> #[trigger] fields[i].0 == fs[i].name && field_reads_back(
            coding_at(fs, i),
            fs[i].number,
            fields[i].1,
        )
}

/// The bytes the encoder writes for the first `j` fields of a record of scalar fields.
pub open spec fn fields_bytes(fs: Seq<FieldV>, fields: Seq<(Seq<char>, Value)>, j: int) -> Seq<u8>
    decreases j,
{
    if j <= 0 {
        seq![]
    } else {
        fields_bytes(fs, fields, j - 1) + field_bytes(coding_at(fs, j - 1), fs[j - 1].number, fields[j - 1].1)
    }
}

/// Writing an implicit or explicit scalar field appends its bytes and leaves the stack.
proof fn lemma_field_written(c: ScalarCoding, number: u32, v: Value, st: Seq<u32>, out: Seq<u8>)
    requires
        c.presence == Presence::Implicit || c.presence == Presence::Explicit,
        scalar_encode_spec(c, scalar_field_tag(c, number), v, seq![], seq![]) is Ok,
    ensures
        scalar_encode_spec(c, scalar_field_tag(c, number), v, st, out)
            == Ok::<_, crate::runtime::encode::EncodeErrorV>((st, out + field_bytes(c, number, v))),
        scalar_length_spec(c, scalar_field_tag(c, number), v, st) matches Ok((_, st2)) && st2 == st,
{
    let tb = varint_bytes(scalar_field_tag(c, number) as nat);
    let e: Seq<u8> = seq![];
    assert(out + (e + tb) =~= out + tb);
    assert(e + tb =~= tb);
    assert(out =~= out + e);
    match scalar_encode_spec(c, scalar_field_tag(c, number), v, st, out) {
        Ok((_, w)) => {
            if w.len() > out.len() {
                let b = payload_spec(c.ty, field_scalar(c, v))->Ok_0;
                assert(out + tb + b =~= out + (e + tb + b));
            }
        },
        Err(_) => {},
    }
}

/// The message encoder of scalar fields.
pub open spec fn scalar_message_encoder(fs: Seq<FieldV>, tag: u64) -> EncoderV {
    EncoderV::Message(MessageEncode::Inner, tag, scalar_encoders(fs))
}

/// The length pass over the first `k` fields of such a record succeeds and pushes nothing.
proof fn lemma_scalar_fields_length(
    fs: Seq<FieldV>,
    tag: u64,
    fields: Seq<(Seq<char>, Value)>,
    k: int,
    st: Seq<u32>,
    total: u32,
)
    requires
        scalar_fields(fs),
        record_reads_back(fs, fields),
        0 <= k <= fs.len(),
    ensures
        fields_length_spec(scalar_message_encoder(fs, tag), fields, k, st, total) matches Ok((_, st2))
            && st2 == st,
    decreases k,
{
    if k > 0 {
        let e = scalar_message_encoder(fs, tag);
        assert(scalar_encoders(fs).take(fs.len() as int) =~= scalar_encoders(fs));
        lemma_find_scalar_encoder(fs, fs.len() as int, k - 1);
        assert(fields[k - 1].0 == fs[k - 1].name && field_reads_back(
            coding_at(fs, k - 1),
            fs[k - 1].number,
            fields[k - 1].1,
        ));
        assert(field_coding(fs[k - 1]) is Some);
        lemma_field_written(coding_at(fs, k - 1), fs[k - 1].number, fields[k - 1].1, st, seq![]);
        assert(subencoders(e)[k - 1].1 == scalar_encoder_spec(coding_at(fs, k - 1), fs[k - 1].number));
        match length_spec(subencoders(e)[k - 1].1, fields[k - 1].1, st) {
            Ok((l, st2)) => {
                lemma_scalar_fields_length(fs, tag, fields, k - 1, st2, crate::runtime::encode::sat(total + l));
            },
            Err(_) => {},
        }
    }
}

/// The encoding pass over the fields from index `i` on appends their bytes.
proof fn lemma_scalar_fields_encode(
    fs: Seq<FieldV>,
    tag: u64,
    fields: Seq<(Seq<char>, Value)>,
    i: int,
    st: Seq<u32>,
    out: Seq<u8>,
)
    requires
        scalar_fields(fs),
        record_reads_back(fs, fields),
        0 <= i <= fs.len(),
    ensures
        fields_encode_spec(scalar_message_encoder(fs, tag), fields, i, st, out + fields_bytes(fs, fields, i))
            == Ok::<_, crate::runtime::encode::EncodeErrorV>((st, out + fields_bytes(fs, fields, fs.len() as int))),
    decreases fs.len() - i,
{
    if i < fs.len() {
        let e = scalar_message_encoder(fs, tag);
        assert(scalar_encoders(fs).take(fs.len() as int) =~= scalar_encoders(fs));
        lemma_find_scalar_encoder(fs, fs.len() as int, i);
        assert(fields[i].0 == fs[i].name && field_reads_back(coding_at(fs, i), fs[i].number, fields[i].1));
        assert(field_coding(fs[i]) is Some);
        let o = out + fields_bytes(fs, fields, i);
        lemma_field_written(coding_at(fs, i), fs[i].number, fields[i].1, st, o);
        let c = coding_at(fs, i);
        assert(subencoders(e)[i].1 == EncoderV::Scalar(c, scalar_field_tag(c, fs[i].number)));
        assert(encode_spec(subencoders(e)[i].1, fields[i].1, st, o) == scalar_encode_spec(
            c,
            scalar_field_tag(c, fs[i].number),
            fields[i].1,
            st,
            o,
        ));
        assert(o + field_bytes(coding_at(fs, i), fs[i].number, fields[i].1) =~= out + fields_bytes(
            fs,
            fields,
            i + 1,
        ));
        lemma_scalar_fields_encode(fs, tag, fields, i + 1, st, out);
    }
}

/// The bytes of the first `j` fields begin the bytes of the first `k`, for `j <= k`.
proof fn lemma_fields_bytes_prefix(fs: Seq<FieldV>, fields: Seq<(Seq<char>, Value)>, j: int, k: int)
    requires
        0 <= j <= k,
    ensures
        fields_bytes(fs, fields, j).len() <= fields_bytes(fs, fields, k).len(),
        fields_bytes(fs, fields, k) == fields_bytes(fs, fields, j) + fields_bytes(fs, fields, k).skip(
            fields_bytes(fs, fields, j).len() as int,
        ),
    decreases k - j,
{
    if j < k {
        lemma_fields_bytes_prefix(fs, fields, j, k - 1);
        let a = fields_bytes(fs, fields, j);
        let b = fields_bytes(fs, fields, k - 1);
        let c = fields_bytes(fs, fields, k);
        assert(c == b + field_bytes(coding_at(fs, k - 1), fs[k - 1].number, fields[k - 1].1));
        assert(c =~= a + c.skip(a.len() as int));
    } else {
        let a = fields_bytes(fs, fields, j);
        assert(a =~= a + a.skip(a.len() as int));
    }
}

/// The message decoder of scalar fields.
pub open spec fn scalar_message_merger(fs: Seq<FieldV>) -> MergerV {
    MergerV::Message(MessageMerge::Inner, scalar_entries(fs), scalar_defaults(fs))
}

/// The record fields after merging the first `i` fields: their values, then defaults.
pub open spec fn merged_fields(fs: Seq<FieldV>, fields: Seq<(Seq<char>, Value)>, i: int) -> Seq<(Seq<char>, Value)> {
    Seq::new(fs.len(), |k: int| if k < i { fields[k] } else { scalar_defaults(fs)[k] })
}

/// Decoding the bytes of such a record, from the end of its first `i` fields on, merges
/// the rest of its fields back into the record.
#[verifier::spinoff_prover]
#[verifier::rlimit(40)]
proof fn lemma_scalar_fields_decode(fs: Seq<FieldV>, fields: Seq<(Seq<char>, Value)>, i: int)
    requires
        scalar_fields(fs),
        record_reads_back(fs, fields),
        fs.len() <= u32::MAX,
        fields_bytes(fs, fields, fs.len() as int).len() <= u32::MAX,
        0 <= i <= fs.len(),
    ensures
        ({
            let w = fields_bytes(fs, fields, fs.len() as int);
            let pos = fields_bytes(fs, fields, i).len();
            fields_spec(scalar_message_merger(fs), w, pos as int, (w.len() - pos) as u32, merged_fields(fs, fields, i))
                == Ok::<_, DecodeErrorV>((fields, w.len() as int, 0u32))
        }),
    decreases fs.len() - i,
{
    let n = fs.len() as int;
    let w = fields_bytes(fs, fields, n);
    let pos = fields_bytes(fs, fields, i).len();
    lemma_fields_bytes_prefix(fs, fields, i, n);
    if i == n {
        assert(merged_fields(fs, fields, i) =~= fields);
    } else {
        lemma_fields_bytes_prefix(fs, fields, i + 1, n);
        lemma_scalar_fields_decode(fs, fields, i + 1);
        let c = coding_at(fs, i);
        let number = fs[i].number;
        let v = fields[i].1;
        let fb = field_bytes(c, number, v);
        assert(0 <= i < fs.len());
        assert(fields[i].0 == fs[i].name);
        assert(field_reads_back(c, number, v));
        assert(field_coding(fs[i]) is Some);
        assert(fields_bytes(fs, fields, i + 1) == fields_bytes(fs, fields, i) + fb);
        if fb.len() == 0 {
            assert(merged_fields(fs, fields, i) =~= merged_fields(fs, fields, i + 1));
        } else {
            let out = fields_bytes(fs, fields, i);
            let rest = w.skip(fields_bytes(fs, fields, i + 1).len() as int);
            let limit = (w.len() - pos) as u32;
            lemma_field_written(c, number, v, seq![], out);
            assert(out + fb + rest =~= w);
            lemma_scalar_field_roundtrip(c, number, v, seq![], out, rest, limit, merged_fields(fs, fields, i)[i].1);
            assert(scalar_entries(fs).take(n) =~= scalar_entries(fs));
            lemma_find_scalar_entry(fs, n, i);
            assert(scalar_entries(fs)[i].1 == i);
            assert(merged_fields(fs, fields, i).update(i, (merged_fields(fs, fields, i)[i].0, v))
                =~= merged_fields(fs, fields, i + 1));
            let m = scalar_message_merger(fs);
            let tl = varint_len(scalar_field_tag(c, number) as nat);
            let wt = scalar_wire_type(c.ty);
            let pos1 = fields_bytes(fs, fields, i + 1).len();
            assert(pos1 == pos + fb.len());
            assert(limit > 0);
            assert(decode_tag_spec(w, pos as int, limit) == Ok::<_, DecodeErrorV>(
                (number, wt, (pos + tl) as int, (limit - tl) as u32),
            ));
            assert(find_subfield(scalar_entries(fs), number) == Some(i));
            assert(crate::runtime::decode::merge_spec(
                MergerV::Scalar(c),
                wt,
                w,
                (pos + tl) as int,
                (limit - tl) as u32,
                merged_fields(fs, fields, i)[i].1,
            ) == Ok::<_, DecodeErrorV>((v, pos1 as int, (limit - fb.len()) as u32)));
            assert(crate::runtime::decode::field_spec(
                m,
                number,
                wt,
                w,
                (pos + tl) as int,
                (limit - tl) as u32,
                merged_fields(fs, fields, i),
            ) == Ok::<_, DecodeErrorV>((merged_fields(fs, fields, i + 1), pos1 as int, (w.len() - pos1) as u32)));
        }
    }
}

/// Decoding undoes encoding for messages of scalar fields. Take a message whose fields
/// are all implicit or explicit scalars with distinct numbers and names, and a record of
/// its fields, in their order and under their names, whose values read back (see
/// [`field_reads_back`]). Then the decoder and the encoder compiled from the message both
/// exist, the encoder writes the record, and the decoder reads what it wrote back as the
/// record, wherever the bytes fit the 32-bit lengths the decoder takes.
pub proof fn lemma_scalar_message_roundtrip(f: FieldV, fields: Seq<(Seq<char>, Value)>)
    requires
        scalar_fields(f.subfields),
        f.subfields.len() <= u32::MAX,
        record_reads_back(f.subfields, fields),
    ensures
        match (compile_message_spec(f, MessageMerge::Inner), message_encoder_spec(f, MessageEncode::Inner)) {
            (Ok(m), Ok(e)) => match response_spec(e, Value::Record(fields), seq![]) {
                Ok(bytes) => bytes.len() <= u32::MAX ==> request_spec(m, bytes) == Ok::<
                    _,
                    crate::runtime::error::StatusView,
                >(Value::Record(fields)),
                Err(_) => false,
            },
            _ => false,
        },
{
    let fs = f.subfields;
    let n = fs.len() as int;
    let tag = tag_of(f.number, 2);
    assert(scalar_entries(fs).take(0) =~= seq![]);
    assert(scalar_defaults(fs).take(0) =~= seq![]);
    assert(scalar_encoders(fs).take(0) =~= seq![]);
    lemma_compile_scalar_subfields(fs, 0);
    lemma_compile_scalar_encoders(fs, 0);
    let m = scalar_message_merger(fs);
    let e = scalar_message_encoder(fs, tag);
    assert(compile_message_spec(f, MessageMerge::Inner) == Ok::<_, crate::runtime::error::StatusView>(m));
    assert(message_encoder_spec(f, MessageEncode::Inner) == Ok::<_, crate::runtime::error::StatusView>(e));
    lemma_scalar_fields_length(fs, tag, fields, n, seq![], 0);
    let empty: Seq<u8> = seq![];
    assert(empty + fields_bytes(fs, fields, 0) =~= empty);
    lemma_scalar_fields_encode(fs, tag, fields, 0, seq![], empty);
    let w = fields_bytes(fs, fields, n);
    assert(empty + w =~= w);
    let v = Value::Record(fields);
    let st0: Seq<u32> = seq![];
    assert(length_spec(e, v, st0) == crate::runtime::encode::inner_length_spec(e, v, st0));
    assert(crate::runtime::encode::inner_length_spec(e, v, st0) == fields_length_spec(e, fields, n, st0, 0));
    assert(length_spec(e, v, st0) matches Ok((_, st2)) && st2 == st0);
    assert(fields_encode_spec(e, fields, 0, st0, empty) == Ok::<_, crate::runtime::encode::EncodeErrorV>((st0, w)));
    assert(encode_spec(e, v, st0, empty) == crate::runtime::encode::inner_encode_spec(e, v, st0, empty));
    assert(crate::runtime::encode::inner_encode_spec(e, v, st0, empty) == fields_encode_spec(e, fields, 0, st0, empty));
    assert(response_spec(e, Value::Record(fields), empty) == Ok::<_, crate::runtime::error::StatusView>(w));
    if w.len() <= u32::MAX {
        lemma_scalar_fields_decode(fs, fields, 0);
        assert(merged_fields(fs, fields, 0) =~= scalar_defaults(fs));
        let d = scalar_defaults(fs);
        let l = w.len() as u32;
        assert(crate::runtime::decode::defaults_of(m) == d);
        assert(crate::runtime::decode::merge_spec(
            m,
            crate::runtime::decode::WireType::LengthDelimited,
            w,
            0,
            l,
            Value::Record(d),
        ) == crate::runtime::decode::inner_spec(m, w, 0, l, Value::Record(d)));
        assert(fields_spec(m, w, 0, l, d) == Ok::<_, DecodeErrorV>((fields, w.len() as int, 0u32)));
        assert(crate::runtime::decode::inner_spec(m, w, 0, l, Value::Record(d)) == Ok::<_, DecodeErrorV>(
            (Value::Record(fields), w.len() as int, 0u32),
        ));
    }
}

// ---------------------------------------------------------------------------------------
// Enumeration fields.

/// The tag the encoder writes for a singular enumeration field `number` (wire type 0).
pub open spec fn enum_field_tag(number: u32) -> u64 {
    tag_of(number, 0)
}

/// The tag of a singular enumeration field, read where the encoder wrote it.
proof fn lemma_enum_tag_read(number: u32, out: Seq<u8>, tail: Seq<u8>, limit: u32)
    requires
        varint_len(enum_field_tag(number) as nat) <= limit,
    ensures
        ({
            let tag = enum_field_tag(number);
            let tl = varint_len(tag as nat);
            decode_tag_spec(out + varint_bytes(tag as nat) + tail, out.len() as int, limit)
                == Ok::<_, DecodeErrorV>(
                (number, crate::runtime::decode::WireType::Varint, (out.len() + tl) as int, (limit - tl) as u32),
            )
        }),
{
    let tag = enum_field_tag(number);
    let tb = varint_bytes(tag as nat);
    assert((number * 8 + 0) as u64 == number * 8);
    assert((number * 8) / 8 == number && (number * 8) % 8 == 0) by (nonlinear_arith)
        requires
            number >= 0,
    ;
    assert(out + tb + tail =~= out + (tb + tail));
    lemma_prefix_varint(out, tb + tail, limit, crate::runtime::decode::INVALID_TAG_VARINT);
    lemma_varint_at_start(tag, tail);
}

/// A singular enumeration field reads back, wherever it stands in the buffer. Let the
/// encoder's variants give `name` the number `n` and the decoder's variants give `n` the
/// name `name`. An explicitly present field is always written, whatever its number
/// (zero too), and an implicitly present one whenever its number is not zero: the tag,
/// then the varint of the number, and the length pass counts exactly those bytes. The
/// decoder, reading from there, finds the field's number in the tag and merges the
/// variant back: a bare enumeration value under implicit presence (the shape of its
/// default), an enumeration value in an option under explicit presence.
#[verifier::spinoff_prover]
pub proof fn lemma_enum_field_roundtrip(
    explicit: bool,
    number: u32,
    evars: Seq<(Seq<char>, u32)>,
    dvars: Seq<(u32, Seq<char>)>,
    name: Seq<char>,
    n: u32,
    st: Seq<u32>,
    out: Seq<u8>,
    rest: Seq<u8>,
    limit: u32,
    dst: Value,
)
    requires
        crate::runtime::encode::variant_number(evars, name) == Some(n),
        crate::runtime::decode::variant_name(dvars, n) == Some(name),
        !explicit ==> n != 0,
        varint_len(enum_field_tag(number) as nat) + varint_len(n as nat) <= limit,
    ensures
        ({
            let ek = if explicit {
                crate::runtime::encode::EnumEncode::Explicit
            } else {
                crate::runtime::encode::EnumEncode::Implicit
            };
            let dk = if explicit {
                crate::runtime::decode::EnumMerge::Explicit
            } else {
                crate::runtime::decode::EnumMerge::Implicit
            };
            let tag = enum_field_tag(number);
            let tl = varint_len(tag as nat);
            let w = out + varint_bytes(tag as nat) + varint_bytes(n as nat);
            let v = if explicit {
                Value::Option(Some(Box::new(Value::Enum(name))))
            } else {
                Value::Enum(name)
            };
            &&& crate::runtime::encode::enum_encode_spec(ek, tag, evars, Value::Enum(name), st, out)
                == Ok::<_, crate::runtime::encode::EncodeErrorV>((st, w))
            &&& crate::runtime::encode::enum_length_spec(ek, tag, evars, Value::Enum(name), st)
                == Ok::<_, crate::runtime::encode::EncodeErrorV>(((w.len() - out.len()) as u32, st))
            &&& decode_tag_spec(w + rest, out.len() as int, limit) == Ok::<_, DecodeErrorV>(
                (number, crate::runtime::decode::WireType::Varint, (out.len() + tl) as int, (limit - tl) as u32),
            )
            &&& crate::runtime::decode::enum_merge_spec(
                dk,
                dvars,
                crate::runtime::decode::WireType::Varint,
                w + rest,
                (out.len() + tl) as int,
                (limit - tl) as u32,
                dst,
            ) == Ok::<_, DecodeErrorV>((v, w.len() as int, (limit - (w.len() - out.len())) as u32))
        }),
{
    let tag = enum_field_tag(number);
    let tb = varint_bytes(tag as nat);
    let tl = varint_len(tag as nat);
    let nb = varint_bytes(n as nat);
    let w = out + tb + nb;
    assert(w + rest =~= out + tb + (nb + rest));
    lemma_enum_tag_read(number, out, nb + rest, limit);
    assert(w + rest =~= (out + tb) + (nb + rest));
    let l = (limit - tl) as u32;
    lemma_prefix_varint(out + tb, nb + rest, l, crate::runtime::decode::INVALID_VARINT);
    lemma_varint_at_start(n as u64, rest);
    assert((nb + rest).skip(0) =~= nb + rest);
}

/// Merging a singular enumeration field keeps the shape of its value, whatever the bytes:
/// a bare enumeration value under implicit presence, one in an option under explicit
/// presence.
pub proof fn lemma_enum_merge_shape(
    explicit: bool,
    vars: Seq<(u32, Seq<char>)>,
    wire_type: crate::runtime::decode::WireType,
    src: Seq<u8>,
    pos: int,
    limit: u32,
    dst: Value,
)
    ensures
        !explicit ==> (crate::runtime::decode::enum_merge_spec(
            crate::runtime::decode::EnumMerge::Implicit,
            vars,
            wire_type,
            src,
            pos,
            limit,
            dst,
        ) matches Ok((v, _, _)) ==> v is Enum),
        explicit ==> (crate::runtime::decode::enum_merge_spec(
            crate::runtime::decode::EnumMerge::Explicit,
            vars,
            wire_type,
            src,
            pos,
            limit,
            dst,
        ) matches Ok((v, _, _)) ==> (v matches Value::Option(Some(x)) && *x is Enum)),
{
}

} // verus!
