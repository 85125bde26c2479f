//! Encoding component record values into outgoing Protobuf response messages.
//!
//! A response's metadata is compiled once into an [`Encoder`] tree. Encoding a value takes
//! two passes: the first computes the length of the value and pushes the length of each
//! length-delimited part onto a stack, innermost and last parts first; the second writes the
//! bytes, popping each length just before the part it prefixes. Lengths saturate at
//! `u32::MAX`.

use vstd::prelude::*;

use crate::runtime::error::{status, Code, Status, StatusView};
use crate::runtime::names::ComponentName;
use crate::runtime::schema::{
    compound_coding_of, explicit_scalar, is_explicit_scalar, scalar_coding_of, Coding,
    CompoundCoding, Field, FieldV, Presence, ScalarCoding, ScalarType,
};
use crate::runtime::value::{clone_val, list_view, record_view, Val, Value};
use crate::runtime::wire::{
    lemma_varint_bytes, varint_bytes, varint_len, varint_length, write_varint, zigzag_encode,
};
use crate::text::{decimal_string, push_decimal};
use vstd::bytes::{spec_u32_to_le_bytes, spec_u64_to_le_bytes, u32_to_le_bytes, u64_to_le_bytes};

verus! {

pub const NO_ENCODER_FOR_FIELD: &'static str = "Unexpected field name";
pub const MESSAGE_NON_OPTIONAL: &'static str = "Submessage is not optional";
pub const MESSAGE_NON_RECORD: &'static str = "Message is not a record";
pub const REPEATED_NON_LIST: &'static str = "Repeated field is not a list";
pub const EXPLICIT_NON_OPTION: &'static str = "Explicit field is not an option";
pub const BYTES_NON_LIST: &'static str = "Bytes field is not a list";
pub const BYTE_NON_BYTE: &'static str = "Byte item is not a byte";
pub const STRING_NON_STRING: &'static str = "String field is not a string";
pub const BOOL_NON_BOOL: &'static str = "Boolean field is not boolean";
pub const INT32_NON_INT32: &'static str = "Int32 field is not S32";
pub const SINT32_NON_SINT32: &'static str = "Sint32 field is not S32";
pub const SFIXED32_NON_SFIXED32: &'static str = "Sfixed32 field is not S32";
pub const UINT32_NON_UINT32: &'static str = "Uint32 field is not U32";
pub const FIXED32_NON_FIXED32: &'static str = "Fixed32 field is not U32";
pub const INT64_NON_INT64: &'static str = "Int64 field is not S64";
pub const SINT64_NON_SINT64: &'static str = "Sint64 field is not S64";
pub const SFIXED64_NON_SFIXED64: &'static str = "Sfixed64 field is not S64";
pub const UINT64_NON_UINT64: &'static str = "Uint64 field is not U64";
pub const FIXED64_NON_FIXED64: &'static str = "Fixed64 field is not U64";
pub const FLOAT_NON_FLOAT: &'static str = "Float field is not Float32";
pub const DOUBLE_NON_DOUBLE: &'static str = "Double field is not Float64";
pub const ENUM_NON_ENUM: &'static str = "Enum field is not an enumeration";
pub const ENUM_VARIANT_UNRECOGNIZED: &'static str = "Unrecognized enum variant";
pub const ONEOF_NON_OPTIONAL: &'static str = "Oneof field is not optional";
pub const ONEOF_NON_VARIANT: &'static str = "Oneof field is not a variant";
pub const ONEOF_VARIANT_UNRECOGNIZED: &'static str = "Unrecognized oneof variant";
pub const ONEOF_VARIANT_NO_PAYLOAD: &'static str = "Oneof variant lacks a payload";
pub const IMPOSSIBLE_PACKED_BYTES: &'static str = "Bytes fields cannot be packed";
pub const IMPOSSIBLE_PACKED_STRING: &'static str = "String fields cannot be packed";
pub const LENGTH_INCONSISTENCY: &'static str = "Length pre-computation algorithm error";

/// A level of nesting in the traceback of an encoding error.
#[derive(Debug, PartialEq)]
pub enum EncodeLevel {
    /// A message field, by name.
    Field(String),
    /// An item of a repeated field, by index.
    Index(usize),
}

/// The model of a level of nesting.
pub enum EncodeLevelV {
    Field(Seq<char>),
    Index(usize),
}

impl View for EncodeLevel {
    type V = EncodeLevelV;

    open spec fn view(&self) -> EncodeLevelV {
        match self {
            EncodeLevel::Field(name) => EncodeLevelV::Field(name@),
            EncodeLevel::Index(i) => EncodeLevelV::Index(*i),
        }
    }
}

/// An error met while encoding: a message and where it was met, innermost level first.
#[derive(Debug)]
pub struct EncodeError {
    pub message: &'static str,
    pub traceback: Vec<EncodeLevel>,
}

/// The model of an encoding error.
pub struct EncodeErrorV {
    pub message: Seq<char>,
    pub traceback: Seq<EncodeLevelV>,
}

/// The models of the levels of a traceback.
pub open spec fn levels_view(t: Seq<EncodeLevel>) -> Seq<EncodeLevelV> {
    Seq::new(t.len(), |i: int| t[i]@)
}

impl View for EncodeError {
    type V = EncodeErrorV;

    open spec fn view(&self) -> EncodeErrorV {
        EncodeErrorV { message: self.message@, traceback: levels_view(self.traceback@) }
    }
}

/// An error with a message and an empty traceback.
pub open spec fn fail(message: &'static str) -> EncodeErrorV {
    EncodeErrorV { message: message@, traceback: seq![] }
}

impl EncodeErrorV {
    pub open spec fn at_field(self, name: Seq<char>) -> EncodeErrorV {
        EncodeErrorV { message: self.message, traceback: self.traceback.push(EncodeLevelV::Field(name)) }
    }

    pub open spec fn at_index(self, i: int) -> EncodeErrorV {
        EncodeErrorV {
            message: self.message,
            traceback: self.traceback.push(EncodeLevelV::Index(i as usize)),
        }
    }
}

impl EncodeError {
    pub fn new(message: &'static str) -> (e: Self)
        ensures
            e@ == fail(message),
    {
        let traceback = Vec::new();
        assert(levels_view(traceback@) =~= seq![]);
        EncodeError { message, traceback }
    }

    /// The same error, met within the field named `name`.
    pub fn with_field(self, name: String) -> (e: Self)
        ensures
            e@ == self@.at_field(name@),
    {
        let mut traceback = self.traceback;
        let ghost before = traceback@;
        traceback.push(EncodeLevel::Field(name));
        assert(levels_view(traceback@) =~= levels_view(before).push(EncodeLevelV::Field(name@)));
        EncodeError { message: self.message, traceback }
    }

    /// The same error, met within the item at index `i`.
    pub fn with_index(self, i: usize) -> (e: Self)
        ensures
            e@ == self@.at_index(i as int),
    {
        let mut traceback = self.traceback;
        let ghost before = traceback@;
        traceback.push(EncodeLevel::Index(i));
        assert(levels_view(traceback@) =~= levels_view(before).push(EncodeLevelV::Index(i)));
        EncodeError { message: self.message, traceback }
    }
}

/// Whether an executable result is an error with the given model.
pub open spec fn is_error<T>(r: Result<T, EncodeError>, e: EncodeErrorV) -> bool {
    r matches Err(x) && x@ == e
}

/// `x`, or `u32::MAX` if it is larger.
pub open spec fn sat(x: int) -> u32 {
    if x > u32::MAX {
        u32::MAX
    } else {
        x as u32
    }
}

/// The tag of a field: its number and wire type.
pub open spec fn tag_of(number: u32, wire_type: int) -> u64 {
    (number * 8 + wire_type) as u64
}

/// The tag of a field.
pub fn tag(number: u32, wire_type: u64) -> (t: u64)
    requires
        wire_type < 8,
    ensures
        t == tag_of(number, wire_type as int),
{
    (number as u64) * 8 + wire_type
}

// ---------------------------------------------------------------------------------------
// Scalar payloads.

/// Whether `v` is a value of scalar type `t`.
pub open spec fn of_type(t: ScalarType, v: Value) -> bool {
    match t {
        ScalarType::Bytes => v is List,
        ScalarType::StringUtf8 | ScalarType::StringPermissive => v is String,
        ScalarType::Bool => v is Bool,
        ScalarType::Int32 | ScalarType::Sint32 | ScalarType::Sfixed32 => v is S32,
        ScalarType::Uint32 | ScalarType::Fixed32 => v is U32,
        ScalarType::Int64 | ScalarType::Sint64 | ScalarType::Sfixed64 => v is S64,
        ScalarType::Uint64 | ScalarType::Fixed64 => v is U64,
        ScalarType::Float => v is Float32,
        ScalarType::Double => v is Float64,
    }
}

/// The error for a value that is not of scalar type `t`.
pub open spec fn type_error(t: ScalarType) -> &'static str {
    match t {
        ScalarType::Bytes => BYTES_NON_LIST,
        ScalarType::StringUtf8 | ScalarType::StringPermissive => STRING_NON_STRING,
        ScalarType::Bool => BOOL_NON_BOOL,
        ScalarType::Int32 => INT32_NON_INT32,
        ScalarType::Sint32 => SINT32_NON_SINT32,
        ScalarType::Sfixed32 => SFIXED32_NON_SFIXED32,
        ScalarType::Uint32 => UINT32_NON_UINT32,
        ScalarType::Fixed32 => FIXED32_NON_FIXED32,
        ScalarType::Int64 => INT64_NON_INT64,
        ScalarType::Sint64 => SINT64_NON_SINT64,
        ScalarType::Sfixed64 => SFIXED64_NON_SFIXED64,
        ScalarType::Uint64 => UINT64_NON_UINT64,
        ScalarType::Fixed64 => FIXED64_NON_FIXED64,
        ScalarType::Float => FLOAT_NON_FLOAT,
        ScalarType::Double => DOUBLE_NON_DOUBLE,
    }
}

/// The number of bytes of a fixed-width scalar type.
pub open spec fn fixed_width(t: ScalarType) -> Option<u32> {
    match t {
        ScalarType::Bool => Some(1),
        ScalarType::Sfixed32 | ScalarType::Fixed32 | ScalarType::Float => Some(4),
        ScalarType::Sfixed64 | ScalarType::Fixed64 | ScalarType::Double => Some(8),
        _ => None,
    }
}

/// The wire type number a scalar type is written with.
pub open spec fn scalar_wire(t: ScalarType) -> int {
    match t {
        ScalarType::Bytes | ScalarType::StringUtf8 | ScalarType::StringPermissive => 2,
        ScalarType::Sfixed32 | ScalarType::Fixed32 | ScalarType::Float => 5,
        ScalarType::Sfixed64 | ScalarType::Fixed64 | ScalarType::Double => 1,
        _ => 0,
    }
}

/// Whether a scalar value is its type's default, which implicit presence omits.
pub open spec fn is_default(v: Value) -> bool {
    match v {
        Value::List(items) => items.len() == 0,
        Value::String(b) => b.len() == 0,
        Value::Bool(b) => !b,
        Value::S32(x) => x == 0,
        Value::U32(x) => x == 0,
        Value::S64(x) => x == 0,
        Value::U64(x) => x == 0,
        Value::Float32(bits) => bits == 0 || bits == 0x8000_0000,
        Value::Float64(bits) => bits == 0 || bits == 0x8000_0000_0000_0000,
        _ => false,
    }
}

/// The bytes of a list of `u8` values, if all items are bytes.
pub open spec fn byte_items(items: Seq<Value>) -> Option<Seq<u8>>
    decreases items.len(),
{
    if items.len() == 0 {
        Some(seq![])
    } else {
        match (items.last(), byte_items(items.drop_last())) {
            (Value::U8(b), Some(bs)) => Some(bs.push(b)),
            _ => None,
        }
    }
}

/// The payload bytes of a scalar value of type `t` (written after its tag).
pub open spec fn payload_spec(t: ScalarType, v: Value) -> Result<Seq<u8>, EncodeErrorV> {
    match v {
        Value::List(items) => match byte_items(items) {
            Some(b) => Ok(varint_bytes(items.len()) + b),
            None => Err(fail(BYTE_NON_BYTE)),
        },
        Value::String(b) => Ok(varint_bytes(b.len()) + b),
        Value::Bool(b) => Ok(seq![if b { 1u8 } else { 0u8 }]),
        Value::S32(x) => Ok(
            match t {
                ScalarType::Sint32 => varint_bytes(zigzag_encode(x as int) as nat),
                ScalarType::Sfixed32 => spec_u32_to_le_bytes(x as u32),
                _ => varint_bytes((x as u64) as nat),
            },
        ),
        Value::U32(x) => Ok(
            match t {
                ScalarType::Fixed32 => spec_u32_to_le_bytes(x),
                _ => varint_bytes(x as nat),
            },
        ),
        Value::S64(x) => Ok(
            match t {
                ScalarType::Sint64 => varint_bytes(zigzag_encode(x as int) as nat),
                ScalarType::Sfixed64 => spec_u64_to_le_bytes(x as u64),
                _ => varint_bytes((x as u64) as nat),
            },
        ),
        Value::U64(x) => Ok(
            match t {
                ScalarType::Fixed64 => spec_u64_to_le_bytes(x),
                _ => varint_bytes(x as nat),
            },
        ),
        Value::Float32(bits) => Ok(spec_u32_to_le_bytes(bits)),
        Value::Float64(bits) => Ok(spec_u64_to_le_bytes(bits)),
        _ => Err(fail(type_error(t))),
    }
}

/// The length charged for the payload of a variable-width scalar value
/// (for bytes and strings, the length prefix and the contents, saturating).
pub open spec fn payload_length(t: ScalarType, v: Value) -> u32 {
    match v {
        Value::List(items) => sat(varint_len(items.len()) + sat(items.len() as int)),
        Value::String(b) => sat(varint_len(b.len()) + sat(b.len() as int)),
        Value::S32(x) => match t {
            ScalarType::Sint32 => varint_len(zigzag_encode(x as int) as nat) as u32,
            _ => varint_len((x as u64) as nat) as u32,
        },
        Value::U32(x) => varint_len(x as nat) as u32,
        Value::S64(x) => match t {
            ScalarType::Sint64 => varint_len(zigzag_encode(x as int) as nat) as u32,
            _ => varint_len((x as u64) as nat) as u32,
        },
        Value::U64(x) => varint_len(x as nat) as u32,
        _ => 0,
    }
}

fn bytes_encode_inner(value: &Vec<Val>, buf: &mut Vec<u8>) -> (r: Result<(), EncodeError>)
    ensures
        match byte_items(list_view(value@)) {
            Some(b) => r is Ok && final(buf)@ == old(buf)@ + varint_bytes(value@.len() as nat) + b,
            None => is_error(r, fail(BYTE_NON_BYTE)),
        },
{
    write_varint(value.len() as u64, buf);
    let ghost start = buf@;
    let ghost items = list_view(value@);
    for i in 0..value.len()
        invariant
            items == list_view(value@),
            byte_items(items.take(i as int)) matches Some(b) && buf@ == start + b,
    {
        assert(items.take(i + 1).drop_last() =~= items.take(i as int));
        match &value[i] {
            Val::U8(byte) => {
                buf.push(*byte);
            },
            _ => {
                proof {
                    lemma_byte_items_prefix(items, i + 1);
                }
                return Err(EncodeError::new(BYTE_NON_BYTE));
            },
        }
    }
    assert(items.take(value@.len() as int) =~= items);
    Ok(())
}

/// Where a prefix of the items is not all bytes, neither are the items.
proof fn lemma_byte_items_prefix(items: Seq<Value>, k: int)
    requires
        0 <= k <= items.len(),
        byte_items(items.take(k)) is None,
    ensures
        byte_items(items) is None,
    decreases items.len() - k,
{
    if k < items.len() {
        assert(items.take(k + 1).drop_last() =~= items.take(k));
        lemma_byte_items_prefix(items, k + 1);
    } else {
        assert(items.take(k) =~= items);
    }
}

fn string_encode_inner(value: &Vec<u8>, buf: &mut Vec<u8>)
    ensures
        final(buf)@ == old(buf)@ + varint_bytes(value@.len() as nat) + value@,
{
    write_varint(value.len() as u64, buf);
    let ghost start = buf@;
    for i in 0..value.len()
        invariant
            buf@ == start + value@.take(i as int),
    {
        buf.push(value[i]);
        assert(value@.take(i + 1) =~= value@.take(i as int).push(value@[i as int]));
    }
    assert(value@.take(value@.len() as int) =~= value@);
}

fn bool_encode_inner(value: bool, buf: &mut Vec<u8>)
    ensures
        final(buf)@ == old(buf)@ + seq![if value { 1u8 } else { 0u8 }],
{
    buf.push(if value { 1u8 } else { 0u8 });
}

/// The zig-zag code of a 32-bit integer.
fn zigzag32(value: i32) -> (r: u32)
    ensures
        r as int == zigzag_encode(value as int),
{
    if value >= 0 {
        (value as u32) * 2
    } else {
        ((-(value + 1)) as u32) * 2 + 1
    }
}

/// The zig-zag code of a 64-bit integer.
fn zigzag64(value: i64) -> (r: u64)
    ensures
        r as int == zigzag_encode(value as int),
{
    if value >= 0 {
        (value as u64) * 2
    } else {
        ((-(value + 1)) as u64) * 2 + 1
    }
}

fn append_bytes(buf: &mut Vec<u8>, bytes: Vec<u8>)
    ensures
        final(buf)@ == old(buf)@ + bytes@,
{
    let mut bytes = bytes;
    buf.append(&mut bytes);
}

/// Writes the payload of scalar value `v` of type `t`.
fn encode_inner(t: ScalarType, v: &Val, buf: &mut Vec<u8>) -> (r: Result<(), EncodeError>)
    requires
        of_type(t, v@),
    ensures
        match payload_spec(t, v@) {
            Ok(b) => r is Ok && final(buf)@ == old(buf)@ + b,
            Err(e) => is_error(r, e),
        },
{
    match v {
        Val::List(items) => {
            proof {
                crate::runtime::value::lemma_list_view(*items);
            }
            bytes_encode_inner(items, buf)
        },
        Val::String(bytes) => {
            string_encode_inner(bytes, buf);
            Ok(())
        },
        Val::Bool(b) => {
            bool_encode_inner(*b, buf);
            Ok(())
        },
        Val::S32(x) => {
            match t {
                ScalarType::Sint32 => write_varint(zigzag32(*x) as u64, buf),
                ScalarType::Sfixed32 => append_bytes(buf, u32_to_le_bytes(*x as u32)),
                _ => write_varint(*x as u64, buf),
            }
            Ok(())
        },
        Val::U32(x) => {
            match t {
                ScalarType::Fixed32 => append_bytes(buf, u32_to_le_bytes(*x)),
                _ => write_varint(*x as u64, buf),
            }
            Ok(())
        },
        Val::S64(x) => {
            match t {
                ScalarType::Sint64 => write_varint(zigzag64(*x), buf),
                ScalarType::Sfixed64 => append_bytes(buf, u64_to_le_bytes(*x as u64)),
                _ => write_varint(*x as u64, buf),
            }
            Ok(())
        },
        Val::U64(x) => {
            match t {
                ScalarType::Fixed64 => append_bytes(buf, u64_to_le_bytes(*x)),
                _ => write_varint(*x, buf),
            }
            Ok(())
        },
        Val::Float32(bits) => {
            append_bytes(buf, u32_to_le_bytes(*bits));
            Ok(())
        },
        Val::Float64(bits) => {
            append_bytes(buf, u64_to_le_bytes(*bits));
            Ok(())
        },
        _ => Err(EncodeError::new(BYTE_NON_BYTE)),
    }
}

/// The length charged for the payload of variable-width scalar value `v` of type `t`.
fn length_inner(t: ScalarType, v: &Val) -> (n: u32)
    ensures
        n == payload_length(t, v@),
{
    match v {
        Val::List(items) => {
            proof {
                crate::runtime::value::lemma_list_view(*items);
            }
            let n = if items.len() > u32::MAX as usize { u32::MAX } else { items.len() as u32 };
            (varint_length(items.len() as u64) as u32).saturating_add(n)
        },
        Val::String(bytes) => {
            let n = if bytes.len() > u32::MAX as usize { u32::MAX } else { bytes.len() as u32 };
            (varint_length(bytes.len() as u64) as u32).saturating_add(n)
        },
        Val::S32(x) => match t {
            ScalarType::Sint32 => varint_length(zigzag32(*x) as u64) as u32,
            _ => varint_length(*x as u64) as u32,
        },
        Val::U32(x) => varint_length(*x as u64) as u32,
        Val::S64(x) => match t {
            ScalarType::Sint64 => varint_length(zigzag64(*x)) as u32,
            _ => varint_length(*x as u64) as u32,
        },
        Val::U64(x) => varint_length(*x) as u32,
        _ => 0,
    }
}

/// Whether scalar value `v` is its type's default.
fn default_value(v: &Val) -> (b: bool)
    ensures
        b == is_default(v@),
{
    match v {
        Val::List(items) => {
            proof {
                crate::runtime::value::lemma_list_view(*items);
            }
            items.len() == 0
        },
        Val::String(bytes) => bytes.len() == 0,
        Val::Bool(b) => !*b,
        Val::S32(x) => *x == 0,
        Val::U32(x) => *x == 0,
        Val::S64(x) => *x == 0,
        Val::U64(x) => *x == 0,
        Val::Float32(bits) => *bits == 0 || *bits == 0x8000_0000,
        Val::Float64(bits) => *bits == 0 || *bits == 0x8000_0000_0000_0000,
        _ => false,
    }
}

/// Whether `v` is a value of scalar type `t`.
fn is_of_type(t: ScalarType, v: &Val) -> (b: bool)
    ensures
        b == of_type(t, v@),
{
    match t {
        ScalarType::Bytes => matches!(v, Val::List(_)),
        ScalarType::StringUtf8 | ScalarType::StringPermissive => matches!(v, Val::String(_)),
        ScalarType::Bool => matches!(v, Val::Bool(_)),
        ScalarType::Int32 | ScalarType::Sint32 | ScalarType::Sfixed32 => matches!(v, Val::S32(_)),
        ScalarType::Uint32 | ScalarType::Fixed32 => matches!(v, Val::U32(_)),
        ScalarType::Int64 | ScalarType::Sint64 | ScalarType::Sfixed64 => matches!(v, Val::S64(_)),
        ScalarType::Uint64 | ScalarType::Fixed64 => matches!(v, Val::U64(_)),
        ScalarType::Float => matches!(v, Val::Float32(_)),
        ScalarType::Double => matches!(v, Val::Float64(_)),
    }
}

fn type_error_of(t: ScalarType) -> (e: &'static str)
    ensures
        e == type_error(t),
{
    match t {
        ScalarType::Bytes => BYTES_NON_LIST,
        ScalarType::StringUtf8 | ScalarType::StringPermissive => STRING_NON_STRING,
        ScalarType::Bool => BOOL_NON_BOOL,
        ScalarType::Int32 => INT32_NON_INT32,
        ScalarType::Sint32 => SINT32_NON_SINT32,
        ScalarType::Sfixed32 => SFIXED32_NON_SFIXED32,
        ScalarType::Uint32 => UINT32_NON_UINT32,
        ScalarType::Fixed32 => FIXED32_NON_FIXED32,
        ScalarType::Int64 => INT64_NON_INT64,
        ScalarType::Sint64 => SINT64_NON_SINT64,
        ScalarType::Sfixed64 => SFIXED64_NON_SFIXED64,
        ScalarType::Uint64 => UINT64_NON_UINT64,
        ScalarType::Fixed64 => FIXED64_NON_FIXED64,
        ScalarType::Float => FLOAT_NON_FLOAT,
        ScalarType::Double => DOUBLE_NON_DOUBLE,
    }
}

fn fixed_width_of(t: ScalarType) -> (w: Option<u32>)
    ensures
        w == fixed_width(t),
{
    match t {
        ScalarType::Bool => Some(1),
        ScalarType::Sfixed32 | ScalarType::Fixed32 | ScalarType::Float => Some(4),
        ScalarType::Sfixed64 | ScalarType::Fixed64 | ScalarType::Double => Some(8),
        _ => None,
    }
}

// ---------------------------------------------------------------------------------------
// Encoders.

/// How an enumeration field is encoded.
#[derive(Clone, Copy, Debug, PartialEq, Eq, Structural)]
pub enum EnumEncode {
    Implicit,
    Packed,
    Explicit,
    Expanded,
}

/// How a message field is encoded: as the contents of a record, as an optional record,
/// or as a list of records.
#[derive(Clone, Copy, Debug, PartialEq, Eq, Structural)]
pub enum MessageEncode {
    Inner,
    Outer,
    Repeated,
}

/// Encodes the component values of one Protobuf field.
#[derive(Debug)]
pub enum Encoder {
    /// A scalar field, with its tag.
    Scalar(ScalarCoding, u64),
    /// An enumeration, with its tag and its variants' numbers by name (later entries winning).
    Enum(EnumEncode, u64, Vec<(String, u32)>),
    /// A message, with its tag and the encoders of its fields by name (later entries winning).
    Message(MessageEncode, u64, Vec<(String, Encoder)>),
    /// A oneof: the encoders of its variants by name.
    Oneof(Vec<(String, Encoder)>),
}

/// The model of an encoder.
pub enum EncoderV {
    Scalar(ScalarCoding, u64),
    Enum(EnumEncode, u64, Seq<(Seq<char>, u32)>),
    Message(MessageEncode, u64, Seq<(Seq<char>, EncoderV)>),
    Oneof(Seq<(Seq<char>, EncoderV)>),
}

/// The models of a list of named encoders.
pub open spec fn named_view(subs: Seq<(String, Encoder)>) -> Seq<(Seq<char>, EncoderV)> {
    Seq::new(subs.len(), |i: int| (subs[i].0@, subs[i].1@))
}

/// The models of a list of named variant numbers.
pub open spec fn numbers_view(vars: Seq<(String, u32)>) -> Seq<(Seq<char>, u32)> {
    Seq::new(vars.len(), |i: int| (vars[i].0@, vars[i].1))
}

/// The model of an encoder.
pub open spec fn encoder_model(e: Encoder) -> EncoderV
    decreases e,
{
    match e {
        Encoder::Scalar(c, t) => EncoderV::Scalar(c, t),
        Encoder::Enum(k, t, vars) => EncoderV::Enum(k, t, numbers_view(vars@)),
        Encoder::Message(k, t, subs) => EncoderV::Message(
            k,
            t,
            Seq::new(
                subs@.len(),
                |i: int|
                    if 0 <= i < subs@.len() {
                        (subs@[i].0@, encoder_model(subs@[i].1))
                    } else {
                        (Seq::empty(), EncoderV::Oneof(Seq::empty()))
                    },
            ),
        ),
        Encoder::Oneof(subs) => EncoderV::Oneof(
            Seq::new(
                subs@.len(),
                |i: int|
                    if 0 <= i < subs@.len() {
                        (subs@[i].0@, encoder_model(subs@[i].1))
                    } else {
                        (Seq::empty(), EncoderV::Oneof(Seq::empty()))
                    },
            ),
        ),
    }
}

impl View for Encoder {
    type V = EncoderV;

    open spec fn view(&self) -> EncoderV {
        encoder_model(*self)
    }
}

/// A message encoder's model, by its parts.
pub proof fn lemma_message_view(k: MessageEncode, t: u64, subs: Vec<(String, Encoder)>)
    ensures
        Encoder::Message(k, t, subs)@ == EncoderV::Message(k, t, named_view(subs@)),
{
    assert(Encoder::Message(k, t, subs)@->Message_2 =~= named_view(subs@));
}

/// A oneof encoder's model, by its parts.
pub proof fn lemma_oneof_view(subs: Vec<(String, Encoder)>)
    ensures
        Encoder::Oneof(subs)@ == EncoderV::Oneof(named_view(subs@)),
{
    assert(Encoder::Oneof(subs)@->Oneof_0 =~= named_view(subs@));
}

/// The index of the last encoder named `name`.
pub open spec fn find_encoder(subs: Seq<(Seq<char>, EncoderV)>, name: Seq<char>) -> Option<int>
    decreases subs.len(),
{
    if subs.len() == 0 {
        None
    } else if subs.last().0 == name {
        Some(subs.len() - 1)
    } else {
        find_encoder(subs.drop_last(), name)
    }
}

/// What `find_encoder` finds is an encoder of that name.
pub proof fn lemma_find_encoder(subs: Seq<(Seq<char>, EncoderV)>, name: Seq<char>)
    ensures
        find_encoder(subs, name) matches Some(j) ==> 0 <= j < subs.len() && subs[j].0 == name,
    decreases subs.len(),
{
    if subs.len() > 0 && subs.last().0 != name {
        lemma_find_encoder(subs.drop_last(), name);
    }
}

/// The number of the variant named `name`: its last entry.
pub open spec fn variant_number(vars: Seq<(Seq<char>, u32)>, name: Seq<char>) -> Option<u32>
    decreases vars.len(),
{
    if vars.len() == 0 {
        None
    } else if vars.last().0 == name {
        Some(vars.last().1)
    } else {
        variant_number(vars.drop_last(), name)
    }
}

/// The result of a length pass: the length and the stack of lengths after it.
pub type Lengths = Result<(u32, Seq<u32>), EncodeErrorV>;

/// The result of an encoding pass: the stack of lengths left and the bytes written so far.
pub type Written = Result<(Seq<u32>, Seq<u8>), EncodeErrorV>;

// --- Scalars ---

/// Whether a scalar type cannot be packed.
pub open spec fn is_stringy(t: ScalarType) -> bool {
    scalar_wire(t) == 2
}

/// The error for packing a scalar type that cannot be packed.
pub open spec fn packed_error(t: ScalarType) -> &'static str {
    if t == ScalarType::Bytes {
        IMPOSSIBLE_PACKED_BYTES
    } else {
        IMPOSSIBLE_PACKED_STRING
    }
}

/// Whether a scalar coding packs bytes or strings, which cannot be packed: encoding
/// such a field fails at once, before any length is pushed or popped or any byte written.
pub open spec fn packs_unpackable(c: ScalarCoding) -> bool {
    &&& c.presence == Presence::Packed
    &&& (c.ty == ScalarType::Bytes || c.ty == ScalarType::StringUtf8 || c.ty
        == ScalarType::StringPermissive)
}

/// The sum, saturating, of the payload lengths of the items, each plus `extra`.
pub open spec fn sum_lengths(t: ScalarType, items: Seq<Value>, extra: u32) -> Result<u32, EncodeErrorV>
    decreases items.len(),
{
    if items.len() == 0 {
        Ok(0)
    } else {
        match sum_lengths(t, items.drop_last(), extra) {
            Err(e) => Err(e),
            Ok(s) => if of_type(t, items.last()) {
                Ok(sat(s + sat(payload_length(t, items.last()) + extra)))
            } else {
                Err(fail(type_error(t)))
            },
        }
    }
}

/// The payloads of the items, each after `prefix`.
pub open spec fn payloads(t: ScalarType, prefix: Seq<u8>, items: Seq<Value>) -> Result<Seq<u8>, EncodeErrorV>
    decreases items.len(),
{
    if items.len() == 0 {
        Ok(seq![])
    } else {
        match payloads(t, prefix, items.drop_last()) {
            Err(e) => Err(e),
            Ok(b) => if of_type(t, items.last()) {
                match payload_spec(t, items.last()) {
                    Ok(p) => Ok(b + prefix + p),
                    Err(e) => Err(e),
                }
            } else {
                Err(fail(type_error(t)))
            },
        }
    }
}

/// The length of a scalar field's value.
pub open spec fn scalar_length_spec(c: ScalarCoding, tag: u64, v: Value, st: Seq<u32>) -> Lengths {
    let tl = varint_len(tag as nat);
    match c.presence {
        Presence::Explicit => match v {
            Value::Option(o) => match o {
                None => Ok((0, st)),
                Some(x) => match fixed_width(c.ty) {
                    Some(w) => Ok((sat(w + tl), st)),
                    None => if of_type(c.ty, *x) {
                        Ok((sat(payload_length(c.ty, *x) + tl), st))
                    } else {
                        Err(fail(type_error(c.ty)))
                    },
                },
            },
            _ => Err(fail(EXPLICIT_NON_OPTION)),
        },
        Presence::Implicit => if of_type(c.ty, v) {
            if is_default(v) {
                Ok((0, st))
            } else {
                match fixed_width(c.ty) {
                    Some(w) => Ok((sat(w + tl), st)),
                    None => Ok((sat(payload_length(c.ty, v) + tl), st)),
                }
            }
        } else {
            Err(fail(type_error(c.ty)))
        },
        Presence::Packed => if is_stringy(c.ty) {
            Err(fail(packed_error(c.ty)))
        } else {
            match v {
                Value::List(items) => if items.len() == 0 {
                    Ok((0, st))
                } else {
                    match fixed_width(c.ty) {
                        Some(w) => {
                            let total = sat(items.len() * w);
                            Ok((sat(total + tl + varint_len(total as nat)), st.push(total)))
                        },
                        None => match sum_lengths(c.ty, items, 0) {
                            Err(e) => Err(e),
                            Ok(total) => Ok((sat(total + tl + varint_len(total as nat)), st.push(total))),
                        },
                    }
                },
                _ => Err(fail(REPEATED_NON_LIST)),
            }
        },
        Presence::Expanded => match v {
            Value::List(items) => match fixed_width(c.ty) {
                Some(w) => Ok((sat(items.len() * (tl + w)), st)),
                None => match sum_lengths(c.ty, items, tl as u32) {
                    Err(e) => Err(e),
                    Ok(total) => Ok((total, st)),
                },
            },
            _ => Err(fail(REPEATED_NON_LIST)),
        },
    }
}

/// Writes a scalar field's value.
pub open spec fn scalar_encode_spec(c: ScalarCoding, tag: u64, v: Value, st: Seq<u32>, out: Seq<u8>) -> Written {
    let tb = varint_bytes(tag as nat);
    match c.presence {
        Presence::Explicit => match v {
            Value::Option(o) => match o {
                None => Ok((st, out)),
                Some(x) => if of_type(c.ty, *x) {
                    match payload_spec(c.ty, *x) {
                        Ok(b) => Ok((st, out + tb + b)),
                        Err(e) => Err(e),
                    }
                } else {
                    Err(fail(type_error(c.ty)))
                },
            },
            _ => Err(fail(EXPLICIT_NON_OPTION)),
        },
        Presence::Implicit => if of_type(c.ty, v) {
            if is_default(v) {
                Ok((st, out))
            } else {
                match payload_spec(c.ty, v) {
                    Ok(b) => Ok((st, out + tb + b)),
                    Err(e) => Err(e),
                }
            }
        } else {
            Err(fail(type_error(c.ty)))
        },
        Presence::Packed => if is_stringy(c.ty) {
            Err(fail(packed_error(c.ty)))
        } else {
            match v {
                Value::List(items) => if items.len() == 0 {
                    Ok((st, out))
                } else if st.len() == 0 {
                    Err(fail(LENGTH_INCONSISTENCY))
                } else {
                    match payloads(c.ty, seq![], items) {
                        Ok(b) => Ok((st.drop_last(), out + tb + varint_bytes(st.last() as nat) + b)),
                        Err(e) => Err(e),
                    }
                },
                _ => Err(fail(REPEATED_NON_LIST)),
            }
        },
        Presence::Expanded => match v {
            Value::List(items) => match payloads(c.ty, tb, items) {
                Ok(b) => Ok((st, out + b)),
                Err(e) => Err(e),
            },
            _ => Err(fail(REPEATED_NON_LIST)),
        },
    }
}

/// An error in a prefix of the items is the error of all of them.
proof fn lemma_sum_lengths_prefix(t: ScalarType, items: Seq<Value>, extra: u32, k: int)
    requires
        0 <= k <= items.len(),
        sum_lengths(t, items.take(k), extra) is Err,
    ensures
        sum_lengths(t, items, extra) == sum_lengths(t, items.take(k), extra),
    decreases items.len() - k,
{
    if k < items.len() {
        assert(items.take(k + 1).drop_last() =~= items.take(k));
        lemma_sum_lengths_prefix(t, items, extra, k + 1);
    } else {
        assert(items.take(k) =~= items);
    }
}

/// An error in a prefix of the items is the error of all of them.
proof fn lemma_payloads_prefix(t: ScalarType, prefix: Seq<u8>, items: Seq<Value>, k: int)
    requires
        0 <= k <= items.len(),
        payloads(t, prefix, items.take(k)) is Err,
    ensures
        payloads(t, prefix, items) == payloads(t, prefix, items.take(k)),
    decreases items.len() - k,
{
    if k < items.len() {
        assert(items.take(k + 1).drop_last() =~= items.take(k));
        lemma_payloads_prefix(t, prefix, items, k + 1);
    } else {
        assert(items.take(k) =~= items);
    }
}

/// The sum, saturating, of the payload lengths of scalar items of type `t`, each plus `extra`.
fn sum_item_lengths(t: ScalarType, items: &Vec<Val>, extra: u32) -> (r: Result<u32, EncodeError>)
    ensures
        match sum_lengths(t, list_view(items@), extra) {
            Ok(n) => r matches Ok(m) && m == n,
            Err(e) => is_error(r, e),
        },
{
    let ghost iv = list_view(items@);
    let mut total: u32 = 0;
    assert(iv.take(0) =~= seq![]);
    for i in 0..items.len()
        invariant
            iv == list_view(items@),
            sum_lengths(t, iv.take(i as int), extra) == Ok::<u32, EncodeErrorV>(total),
    {
        assert(iv.take(i + 1).drop_last() =~= iv.take(i as int));
        assert(iv.take(i + 1).last() == items@[i as int]@);
        if !is_of_type(t, &items[i]) {
            proof {
                lemma_sum_lengths_prefix(t, iv, extra, i + 1);
            }
            return Err(EncodeError::new(type_error_of(t)));
        }
        total = total.saturating_add(length_inner(t, &items[i]).saturating_add(extra));
    }
    assert(iv.take(items@.len() as int) =~= iv);
    Ok(total)
}

/// The bytes of a tag, or nothing.
pub open spec fn tag_prefix(tag: u64, with_tag: bool) -> Seq<u8> {
    if with_tag {
        varint_bytes(tag as nat)
    } else {
        seq![]
    }
}

/// Writes the payloads of scalar items of type `t`, each after the tag if `with_tag`.
fn write_payloads(t: ScalarType, tag: u64, with_tag: bool, items: &Vec<Val>, buf: &mut Vec<u8>) -> (r: Result<(), EncodeError>)
    ensures
        match payloads(t, tag_prefix(tag, with_tag), list_view(items@)) {
            Ok(b) => r is Ok && final(buf)@ == old(buf)@ + b,
            Err(e) => is_error(r, e),
        },
{
    let ghost iv = list_view(items@);
    let ghost prefix = tag_prefix(tag, with_tag);
    let ghost start = buf@;
    assert(iv.take(0) =~= seq![]);
    assert(start + seq![] =~= start);
    for i in 0..items.len()
        invariant
            iv == list_view(items@),
            prefix == tag_prefix(tag, with_tag),
            payloads(t, prefix, iv.take(i as int)) matches Ok(b) && buf@ == start + b,
    {
        assert(iv.take(i + 1).drop_last() =~= iv.take(i as int));
        assert(iv.take(i + 1).last() == items@[i as int]@);
        let ghost before = buf@;
        if !is_of_type(t, &items[i]) {
            proof {
                lemma_payloads_prefix(t, prefix, iv, i + 1);
            }
            return Err(EncodeError::new(type_error_of(t)));
        }
        if with_tag {
            write_varint(tag, buf);
        }
        let ghost mid = buf@;
        match encode_inner(t, &items[i], buf) {
            Ok(()) => {
                proof {
                    let b = payloads(t, prefix, iv.take(i as int))->Ok_0;
                    assert(mid =~= start + b + prefix);
                }
            },
            Err(e) => {
                proof {
                    lemma_payloads_prefix(t, prefix, iv, i + 1);
                }
                return Err(e);
            },
        }
    }
    assert(iv.take(items@.len() as int) =~= iv);
    Ok(())
}

/// Whether an executable length result agrees with its model.
pub open spec fn length_agrees(r: Result<u32, EncodeError>, lengths: Seq<u32>, s: Lengths) -> bool {
    match s {
        Ok((n, st)) => r matches Ok(m) && m == n && lengths == st,
        Err(e) => is_error(r, e),
    }
}

/// Whether an executable encoding result agrees with its model.
pub open spec fn encode_agrees(r: Result<(), EncodeError>, lengths: Seq<u32>, buf: Seq<u8>, s: Written) -> bool {
    match s {
        Ok((st, out)) => r is Ok && lengths == st && buf == out,
        Err(e) => is_error(r, e),
    }
}

/// `n * w`, or `u32::MAX` if it is larger.
fn sat_mul(n: usize, w: u32) -> (r: u32)
    requires
        w > 0,
    ensures
        r == sat(n * w),
{
    if n > (u32::MAX / w) as usize {
        proof {
            assert(n * w > u32::MAX) by (nonlinear_arith)
                requires
                    n > u32::MAX / w,
                    w > 0,
            ;
        }
        u32::MAX
    } else {
        proof {
            assert(n * w <= u32::MAX) by (nonlinear_arith)
                requires
                    n <= u32::MAX / w,
                    w > 0,
            ;
        }
        (n as u32) * w
    }
}

fn saturate(n: usize) -> (r: u32)
    ensures
        r == sat(n as int),
{
    if n > u32::MAX as usize {
        u32::MAX
    } else {
        n as u32
    }
}

/// The length of a scalar field's value; packed fields push their contents' length.
fn scalar_length(c: ScalarCoding, tag: u64, v: &Val, lengths: &mut Vec<u32>) -> (r: Result<u32, EncodeError>)
    ensures
        length_agrees(r, final(lengths)@, scalar_length_spec(c, tag, v@, old(lengths)@)),
        packs_unpackable(c) ==> final(lengths)@ == old(lengths)@,
{
    let tl = varint_length(tag) as u32;
    match c.presence {
        Presence::Explicit => match v {
            Val::Option(o) => match o {
                None => Ok(0),
                Some(x) => match fixed_width_of(c.ty) {
                    Some(w) => Ok(w.saturating_add(tl)),
                    None => {
                        if is_of_type(c.ty, x) {
                            Ok(length_inner(c.ty, x).saturating_add(tl))
                        } else {
                            Err(EncodeError::new(type_error_of(c.ty)))
                        }
                    },
                },
            },
            _ => Err(EncodeError::new(EXPLICIT_NON_OPTION)),
        },
        Presence::Implicit => {
            if is_of_type(c.ty, v) {
                if default_value(v) {
                    Ok(0)
                } else {
                    match fixed_width_of(c.ty) {
                        Some(w) => Ok(w.saturating_add(tl)),
                        None => Ok(length_inner(c.ty, v).saturating_add(tl)),
                    }
                }
            } else {
                Err(EncodeError::new(type_error_of(c.ty)))
            }
        },
        Presence::Packed => {
            if c.ty == ScalarType::Bytes {
                return Err(EncodeError::new(IMPOSSIBLE_PACKED_BYTES));
            }
            if c.ty == ScalarType::StringUtf8 || c.ty == ScalarType::StringPermissive {
                return Err(EncodeError::new(IMPOSSIBLE_PACKED_STRING));
            }
            match v {
                Val::List(items) => {
                    proof {
                        crate::runtime::value::lemma_list_view(*items);
                    }
                    if items.len() == 0 {
                        Ok(0)
                    } else {
                        let total = match fixed_width_of(c.ty) {
                            Some(w) => sat_mul(items.len(), w),
                            None => sum_item_lengths(c.ty, items, 0)?,
                        };
                        lengths.push(total);
                        Ok(total.saturating_add(tl + varint_length(total as u64) as u32))
                    }
                },
                _ => Err(EncodeError::new(REPEATED_NON_LIST)),
            }
        },
        Presence::Expanded => match v {
            Val::List(items) => {
                proof {
                    crate::runtime::value::lemma_list_view(*items);
                }
                match fixed_width_of(c.ty) {
                    Some(w) => Ok(sat_mul(items.len(), tl + w)),
                    None => sum_item_lengths(c.ty, items, tl),
                }
            },
            _ => Err(EncodeError::new(REPEATED_NON_LIST)),
        },
    }
}

/// Writes a scalar field's value; packed fields pop their contents' length.
fn scalar_encode(c: ScalarCoding, tag: u64, v: &Val, lengths: &mut Vec<u32>, buf: &mut Vec<u8>) -> (r: Result<(), EncodeError>)
    ensures
        encode_agrees(r, final(lengths)@, final(buf)@, scalar_encode_spec(c, tag, v@, old(lengths)@, old(buf)@)),
        packs_unpackable(c) ==> final(lengths)@ == old(lengths)@ && final(buf)@ == old(buf)@,
{
    match c.presence {
        Presence::Explicit => match v {
            Val::Option(o) => match o {
                None => Ok(()),
                Some(x) => {
                    if is_of_type(c.ty, x) {
                        write_varint(tag, buf);
                        encode_inner(c.ty, x, buf)
                    } else {
                        Err(EncodeError::new(type_error_of(c.ty)))
                    }
                },
            },
            _ => Err(EncodeError::new(EXPLICIT_NON_OPTION)),
        },
        Presence::Implicit => {
            if is_of_type(c.ty, v) {
                if default_value(v) {
                    Ok(())
                } else {
                    write_varint(tag, buf);
                    encode_inner(c.ty, v, buf)
                }
            } else {
                Err(EncodeError::new(type_error_of(c.ty)))
            }
        },
        Presence::Packed => {
            if c.ty == ScalarType::Bytes {
                return Err(EncodeError::new(IMPOSSIBLE_PACKED_BYTES));
            }
            if c.ty == ScalarType::StringUtf8 || c.ty == ScalarType::StringPermissive {
                return Err(EncodeError::new(IMPOSSIBLE_PACKED_STRING));
            }
            match v {
                Val::List(items) => {
                    proof {
                        crate::runtime::value::lemma_list_view(*items);
                    }
                    if items.len() > 0 {
                        match lengths.pop() {
                            Some(length) => {
                                write_varint(tag, buf);
                                write_varint(length as u64, buf);
                                write_payloads(c.ty, tag, false, items, buf)
                            },
                            None => Err(EncodeError::new(LENGTH_INCONSISTENCY)),
                        }
                    } else {
                        Ok(())
                    }
                },
                _ => Err(EncodeError::new(REPEATED_NON_LIST)),
            }
        },
        Presence::Expanded => match v {
            Val::List(items) => {
                proof {
                    crate::runtime::value::lemma_list_view(*items);
                }
                write_payloads(c.ty, tag, true, items, buf)
            },
            _ => Err(EncodeError::new(REPEATED_NON_LIST)),
        },
    }
}

// --- Enumerations ---

/// The numbers of enumeration items; an item that is not a known variant fails at its index.
pub open spec fn enum_numbers(vars: Seq<(Seq<char>, u32)>, items: Seq<Value>) -> Result<Seq<u32>, EncodeErrorV>
    decreases items.len(),
{
    if items.len() == 0 {
        Ok(seq![])
    } else {
        match enum_numbers(vars, items.drop_last()) {
            Err(e) => Err(e),
            Ok(ns) => match items.last() {
                Value::Enum(name) => match variant_number(vars, name) {
                    Some(n) => Ok(ns.push(n)),
                    None => Err(fail(ENUM_VARIANT_UNRECOGNIZED).at_index(items.len() - 1)),
                },
                _ => Err(fail(ENUM_NON_ENUM).at_index(items.len() - 1)),
            },
        }
    }
}

/// The sum, saturating, of the varint lengths of the numbers, each plus `extra`.
pub open spec fn number_lengths(ns: Seq<u32>, extra: u32) -> u32
    decreases ns.len(),
{
    if ns.len() == 0 {
        0
    } else {
        sat(number_lengths(ns.drop_last(), extra) + extra + varint_len(ns.last() as nat))
    }
}

/// The varints of the numbers, each after `prefix`.
pub open spec fn number_bytes(ns: Seq<u32>, prefix: Seq<u8>) -> Seq<u8>
    decreases ns.len(),
{
    if ns.len() == 0 {
        seq![]
    } else {
        number_bytes(ns.drop_last(), prefix) + prefix + varint_bytes(ns.last() as nat)
    }
}

/// The length of an enumeration field's value.
pub open spec fn enum_length_spec(k: EnumEncode, tag: u64, vars: Seq<(Seq<char>, u32)>, v: Value, st: Seq<u32>) -> Lengths {
    let tl = varint_len(tag as nat);
    match k {
        EnumEncode::Explicit | EnumEncode::Implicit => match v {
            Value::Enum(name) => match variant_number(vars, name) {
                Some(n) => Ok(
                    (
                        if k == EnumEncode::Implicit && n == 0 {
                            0
                        } else {
                            (tl + varint_len(n as nat)) as u32
                        },
                        st,
                    ),
                ),
                None => Err(fail(ENUM_VARIANT_UNRECOGNIZED)),
            },
            _ => Err(fail(ENUM_NON_ENUM)),
        },
        EnumEncode::Packed => match v {
            Value::List(items) => if items.len() == 0 {
                Ok((0, st))
            } else {
                match enum_numbers(vars, items) {
                    Err(e) => Err(e),
                    Ok(ns) => {
                        let total = number_lengths(ns, 0);
                        Ok((sat(total + tl + varint_len(total as nat)), st.push(total)))
                    },
                }
            },
            _ => Err(fail(REPEATED_NON_LIST)),
        },
        EnumEncode::Expanded => match v {
            Value::List(items) => match enum_numbers(vars, items) {
                Err(e) => Err(e),
                Ok(ns) => Ok((number_lengths(ns, tl as u32), st)),
            },
            _ => Err(fail(REPEATED_NON_LIST)),
        },
    }
}

/// Writes an enumeration field's value.
pub open spec fn enum_encode_spec(
    k: EnumEncode,
    tag: u64,
    vars: Seq<(Seq<char>, u32)>,
    v: Value,
    st: Seq<u32>,
    out: Seq<u8>,
) -> Written {
    let tb = varint_bytes(tag as nat);
    match k {
        EnumEncode::Explicit | EnumEncode::Implicit => match v {
            Value::Enum(name) => match variant_number(vars, name) {
                Some(n) => if k == EnumEncode::Implicit && n == 0 {
                    Ok((st, out))
                } else {
                    Ok((st, out + tb + varint_bytes(n as nat)))
                },
                None => Err(fail(ENUM_VARIANT_UNRECOGNIZED)),
            },
            _ => Err(fail(ENUM_NON_ENUM)),
        },
        EnumEncode::Packed => match v {
            Value::List(items) => if items.len() == 0 {
                Ok((st, out))
            } else if st.len() == 0 {
                Err(fail(LENGTH_INCONSISTENCY))
            } else {
                match enum_numbers(vars, items) {
                    Err(e) => Err(e),
                    Ok(ns) => Ok((st.drop_last(), out + tb + varint_bytes(st.last() as nat) + number_bytes(ns, seq![]))),
                }
            },
            _ => Err(fail(REPEATED_NON_LIST)),
        },
        EnumEncode::Expanded => match v {
            Value::List(items) => match enum_numbers(vars, items) {
                Err(e) => Err(e),
                Ok(ns) => Ok((st, out + number_bytes(ns, tb))),
            },
            _ => Err(fail(REPEATED_NON_LIST)),
        },
    }
}

/// The number of the variant named `name`, looked up from the last entry back.
fn lookup_number(vars: &Vec<(String, u32)>, name: &String) -> (r: Option<u32>)
    ensures
        r == variant_number(numbers_view(vars@), name@),
{
    let ghost all = numbers_view(vars@);
    let mut i = vars.len();
    assert(all.take(i as int) =~= all);
    while i > 0
        invariant
            i <= vars@.len(),
            all == numbers_view(vars@),
            variant_number(all, name@) == variant_number(all.take(i as int), name@),
        decreases i,
    {
        assert(all.take(i as int).drop_last() =~= all.take(i - 1));
        if vars[i - 1].0 == *name {
            return Some(vars[i - 1].1);
        }
        i = i - 1;
    }
    None
}

/// An error in a prefix of the items is the error of all of them.
proof fn lemma_enum_numbers_prefix(vars: Seq<(Seq<char>, u32)>, items: Seq<Value>, k: int)
    requires
        0 <= k <= items.len(),
        enum_numbers(vars, items.take(k)) is Err,
    ensures
        enum_numbers(vars, items) == enum_numbers(vars, items.take(k)),
    decreases items.len() - k,
{
    if k < items.len() {
        assert(items.take(k + 1).drop_last() =~= items.take(k));
        lemma_enum_numbers_prefix(vars, items, k + 1);
    } else {
        assert(items.take(k) =~= items);
    }
}

/// The numbers of enumeration items.
fn enum_numbers_of(vars: &Vec<(String, u32)>, items: &Vec<Val>) -> (r: Result<Vec<u32>, EncodeError>)
    ensures
        match enum_numbers(numbers_view(vars@), list_view(items@)) {
            Ok(ns) => r matches Ok(v) && v@ == ns,
            Err(e) => is_error(r, e),
        },
{
    let ghost iv = list_view(items@);
    let ghost nv = numbers_view(vars@);
    let mut numbers: Vec<u32> = Vec::new();
    assert(iv.take(0) =~= seq![]);
    for i in 0..items.len()
        invariant
            iv == list_view(items@),
            nv == numbers_view(vars@),
            enum_numbers(nv, iv.take(i as int)) == Ok::<Seq<u32>, EncodeErrorV>(numbers@),
    {
        assert(iv.take(i + 1).drop_last() =~= iv.take(i as int));
        assert(iv.take(i + 1).last() == items@[i as int]@);
        match &items[i] {
            Val::Enum(name) => match lookup_number(vars, name) {
                Some(n) => {
                    numbers.push(n);
                },
                None => {
                    proof {
                        lemma_enum_numbers_prefix(nv, iv, i + 1);
                    }
                    return Err(EncodeError::new(ENUM_VARIANT_UNRECOGNIZED).with_index(i));
                },
            },
            _ => {
                proof {
                    lemma_enum_numbers_prefix(nv, iv, i + 1);
                }
                return Err(EncodeError::new(ENUM_NON_ENUM).with_index(i));
            },
        }
    }
    assert(iv.take(items@.len() as int) =~= iv);
    Ok(numbers)
}

fn sum_number_lengths(ns: &Vec<u32>, extra: u32) -> (r: u32)
    requires
        extra <= 10,
    ensures
        r == number_lengths(ns@, extra),
{
    let mut total: u32 = 0;
    assert(ns@.take(0) =~= seq![]);
    for i in 0..ns.len()
        invariant
            extra <= 10,
            total == number_lengths(ns@.take(i as int), extra),
    {
        assert(ns@.take(i + 1).drop_last() =~= ns@.take(i as int));
        total = total.saturating_add(extra + varint_length(ns[i] as u64) as u32);
    }
    assert(ns@.take(ns@.len() as int) =~= ns@);
    total
}

fn write_numbers(ns: &Vec<u32>, tag: u64, with_tag: bool, buf: &mut Vec<u8>)
    ensures
        final(buf)@ == old(buf)@ + number_bytes(ns@, tag_prefix(tag, with_tag)),
{
    let ghost start = buf@;
    let ghost prefix = tag_prefix(tag, with_tag);
    assert(ns@.take(0) =~= seq![]);
    assert(start + seq![] =~= start);
    for i in 0..ns.len()
        invariant
            prefix == tag_prefix(tag, with_tag),
            buf@ == start + number_bytes(ns@.take(i as int), prefix),
    {
        assert(ns@.take(i + 1).drop_last() =~= ns@.take(i as int));
        let ghost before = buf@;
        if with_tag {
            write_varint(tag, buf);
        }
        write_varint(ns[i] as u64, buf);
        assert(buf@ =~= start + number_bytes(ns@.take(i + 1), prefix));
    }
    assert(ns@.take(ns@.len() as int) =~= ns@);
}

/// The length of an enumeration field's value; packed fields push their contents' length.
fn enum_length(k: EnumEncode, tag: u64, vars: &Vec<(String, u32)>, v: &Val, lengths: &mut Vec<u32>) -> (r: Result<u32, EncodeError>)
    ensures
        length_agrees(r, final(lengths)@, enum_length_spec(k, tag, numbers_view(vars@), v@, old(lengths)@)),
{
    let tl = varint_length(tag) as u32;
    match k {
        EnumEncode::Explicit | EnumEncode::Implicit => match v {
            Val::Enum(name) => match lookup_number(vars, name) {
                Some(n) => {
                    if k == EnumEncode::Implicit && n == 0 {
                        Ok(0)
                    } else {
                        Ok(tl + varint_length(n as u64) as u32)
                    }
                },
                None => Err(EncodeError::new(ENUM_VARIANT_UNRECOGNIZED)),
            },
            _ => Err(EncodeError::new(ENUM_NON_ENUM)),
        },
        EnumEncode::Packed => match v {
            Val::List(items) => {
                proof {
                    crate::runtime::value::lemma_list_view(*items);
                }
                if items.len() == 0 {
                    Ok(0)
                } else {
                    let ns = enum_numbers_of(vars, items)?;
                    let total = sum_number_lengths(&ns, 0);
                    lengths.push(total);
                    Ok(total.saturating_add(tl + varint_length(total as u64) as u32))
                }
            },
            _ => Err(EncodeError::new(REPEATED_NON_LIST)),
        },
        EnumEncode::Expanded => match v {
            Val::List(items) => {
                proof {
                    crate::runtime::value::lemma_list_view(*items);
                }
                let ns = enum_numbers_of(vars, items)?;
                Ok(sum_number_lengths(&ns, tl))
            },
            _ => Err(EncodeError::new(REPEATED_NON_LIST)),
        },
    }
}

/// Writes an enumeration field's value; packed fields pop their contents' length.
fn enum_encode(k: EnumEncode, tag: u64, vars: &Vec<(String, u32)>, v: &Val, lengths: &mut Vec<u32>, buf: &mut Vec<u8>) -> (r: Result<(), EncodeError>)
    ensures
        encode_agrees(r, final(lengths)@, final(buf)@, enum_encode_spec(k, tag, numbers_view(vars@), v@, old(lengths)@, old(buf)@)),
{
    match k {
        EnumEncode::Explicit | EnumEncode::Implicit => match v {
            Val::Enum(name) => match lookup_number(vars, name) {
                Some(n) => {
                    if !(k == EnumEncode::Implicit && n == 0) {
                        write_varint(tag, buf);
                        write_varint(n as u64, buf);
                    }
                    Ok(())
                },
                None => Err(EncodeError::new(ENUM_VARIANT_UNRECOGNIZED)),
            },
            _ => Err(EncodeError::new(ENUM_NON_ENUM)),
        },
        EnumEncode::Packed => match v {
            Val::List(items) => {
                proof {
                    crate::runtime::value::lemma_list_view(*items);
                }
                if items.len() == 0 {
                    Ok(())
                } else {
                    match lengths.pop() {
                        Some(length) => {
                            let ns = enum_numbers_of(vars, items)?;
                            write_varint(tag, buf);
                            write_varint(length as u64, buf);
                            write_numbers(&ns, tag, false, buf);
                            Ok(())
                        },
                        None => Err(EncodeError::new(LENGTH_INCONSISTENCY)),
                    }
                }
            },
            _ => Err(EncodeError::new(REPEATED_NON_LIST)),
        },
        EnumEncode::Expanded => match v {
            Val::List(items) => {
                proof {
                    crate::runtime::value::lemma_list_view(*items);
                }
                let ns = enum_numbers_of(vars, items)?;
                write_numbers(&ns, tag, true, buf);
                Ok(())
            },
            _ => Err(EncodeError::new(REPEATED_NON_LIST)),
        },
    }
}

// --- Messages and oneofs ---

/// The tag of an encoder (zero for a oneof, whose variants have their own).
pub open spec fn tag_of_encoder(e: EncoderV) -> u64 {
    match e {
        EncoderV::Scalar(_, t) => t,
        EncoderV::Enum(_, t, _) => t,
        EncoderV::Message(_, t, _) => t,
        EncoderV::Oneof(_) => 0,
    }
}

/// The named subencoders of a message or oneof encoder.
pub open spec fn subencoders(e: EncoderV) -> Seq<(Seq<char>, EncoderV)> {
    match e {
        EncoderV::Message(_, _, subs) => subs,
        EncoderV::Oneof(subs) => subs,
        _ => seq![],
    }
}

/// The first pass: the length of `v` as encoded by `e`, and the stack of lengths
/// after pushing those of its length-delimited parts.
pub open spec fn length_spec(e: EncoderV, v: Value, st: Seq<u32>) -> Lengths
    decreases e, 4int, 0int,
{
    match e {
        EncoderV::Scalar(c, tag) => scalar_length_spec(c, tag, v, st),
        EncoderV::Enum(k, tag, vars) => enum_length_spec(k, tag, vars, v, st),
        EncoderV::Message(k, tag, _) => match k {
            MessageEncode::Inner => inner_length_spec(e, v, st),
            MessageEncode::Outer => match v {
                Value::Option(o) => match o {
                    None => Ok((0, st)),
                    Some(x) => match inner_length_spec(e, *x, st) {
                        Err(err) => Err(err),
                        Ok((l, st2)) => Ok(
                            (sat(l + varint_len(tag as nat) + varint_len(l as nat)), st2.push(l)),
                        ),
                    },
                },
                _ => Err(fail(MESSAGE_NON_OPTIONAL)),
            },
            MessageEncode::Repeated => match v {
                Value::List(items) => items_length_spec(e, items, 0, st, 0),
                _ => Err(fail(REPEATED_NON_LIST)),
            },
        },
        EncoderV::Oneof(subs) => match v {
            Value::Option(o) => match o {
                None => Ok((0, st)),
                Some(x) => match *x {
                    Value::Variant(name, payload) => match find_encoder(subs, name) {
                        None => Err(fail(ONEOF_VARIANT_UNRECOGNIZED).at_field(name)),
                        Some(j) => match payload {
                            None => Err(fail(ONEOF_VARIANT_NO_PAYLOAD).at_field(name)),
                            Some(p) => {
                                proof {
                                    lemma_find_encoder(subs, name);
                                }
                                match length_spec(subs[j].1, Value::Option(Some(p)), st) {
                                    Err(err) => Err(err.at_field(name)),
                                    Ok(r) => Ok(r),
                                }
                            },
                        },
                    },
                    _ => Err(fail(ONEOF_NON_VARIANT)),
                },
            },
            _ => Err(fail(ONEOF_NON_OPTIONAL)),
        },
    }
}

/// The first pass over the items of a repeated message, from index `i` on.
pub open spec fn items_length_spec(e: EncoderV, items: Seq<Value>, i: int, st: Seq<u32>, total: u32) -> Lengths
    decreases e, 3int, items.len() - i,
{
    if i < 0 || i >= items.len() {
        Ok((total, st))
    } else {
        match inner_length_spec(e, items[i], st) {
            Err(err) => Err(err.at_index(i)),
            Ok((l, st2)) => items_length_spec(
                e,
                items,
                i + 1,
                st2,
                sat(total + sat(l + varint_len(tag_of_encoder(e) as nat) + varint_len(l as nat))),
            ),
        }
    }
}

/// The first pass over the contents of a message.
pub open spec fn inner_length_spec(e: EncoderV, v: Value, st: Seq<u32>) -> Lengths
    decreases e, 2int, 0int,
{
    match v {
        Value::Record(fields) => fields_length_spec(e, fields, fields.len() as int, st, 0),
        _ => Err(fail(MESSAGE_NON_RECORD)),
    }
}

/// The first pass over the fields of a record below index `k`, from the last one back.
pub open spec fn fields_length_spec(e: EncoderV, fields: Seq<(Seq<char>, Value)>, k: int, st: Seq<u32>, total: u32) -> Lengths
    decreases e, 1int, k,
{
    if k <= 0 || k > fields.len() {
        Ok((total, st))
    } else {
        let (name, fv) = fields[k - 1];
        match find_encoder(subencoders(e), name) {
            None => Err(fail(NO_ENCODER_FOR_FIELD).at_field(name)),
            Some(j) => {
                proof {
                    lemma_find_encoder(subencoders(e), name);
                    assert(decreases_to!(e => subencoders(e)[j].1));
                }
                match length_spec(subencoders(e)[j].1, fv, st) {
                    Err(err) => Err(err.at_field(name)),
                    Ok((l, st2)) => fields_length_spec(e, fields, k - 1, st2, sat(total + l)),
                }
            },
        }
    }
}

/// The second pass: writes `v` as encoded by `e` after `out`,
/// popping the length of each length-delimited part before writing it.
pub open spec fn encode_spec(e: EncoderV, v: Value, st: Seq<u32>, out: Seq<u8>) -> Written
    decreases e, 4int, 0int,
{
    match e {
        EncoderV::Scalar(c, tag) => scalar_encode_spec(c, tag, v, st, out),
        EncoderV::Enum(k, tag, vars) => enum_encode_spec(k, tag, vars, v, st, out),
        EncoderV::Message(k, tag, _) => match k {
            MessageEncode::Inner => inner_encode_spec(e, v, st, out),
            MessageEncode::Outer => match v {
                Value::Option(o) => match o {
                    None => Ok((st, out)),
                    Some(x) => if st.len() == 0 {
                        Err(fail(LENGTH_INCONSISTENCY))
                    } else {
                        inner_encode_spec(
                            e,
                            *x,
                            st.drop_last(),
                            out + varint_bytes(tag as nat) + varint_bytes(st.last() as nat),
                        )
                    },
                },
                _ => Err(fail(MESSAGE_NON_OPTIONAL)),
            },
            MessageEncode::Repeated => match v {
                Value::List(items) => items_encode_spec(e, items, 0, st, out),
                _ => Err(fail(REPEATED_NON_LIST)),
            },
        },
        EncoderV::Oneof(subs) => match v {
            Value::Option(o) => match o {
                None => Ok((st, out)),
                Some(x) => match *x {
                    Value::Variant(name, payload) => match find_encoder(subs, name) {
                        None => Err(fail(ONEOF_VARIANT_UNRECOGNIZED).at_field(name)),
                        Some(j) => match payload {
                            None => Err(fail(ONEOF_VARIANT_NO_PAYLOAD).at_field(name)),
                            Some(p) => {
                                proof {
                                    lemma_find_encoder(subs, name);
                                }
                                match encode_spec(subs[j].1, Value::Option(Some(p)), st, out) {
                                    Err(err) => Err(err.at_field(name)),
                                    Ok(r) => Ok(r),
                                }
                            },
                        },
                    },
                    _ => Err(fail(ONEOF_NON_VARIANT)),
                },
            },
            _ => Err(fail(ONEOF_NON_OPTIONAL)),
        },
    }
}

/// The second pass over the items of a repeated message, from index `i` on.
pub open spec fn items_encode_spec(e: EncoderV, items: Seq<Value>, i: int, st: Seq<u32>, out: Seq<u8>) -> Written
    decreases e, 3int, items.len() - i,
{
    if i < 0 || i >= items.len() {
        Ok((st, out))
    } else if st.len() == 0 {
        Err(fail(LENGTH_INCONSISTENCY).at_index(i))
    } else {
        match inner_encode_spec(
            e,
            items[i],
            st.drop_last(),
            out + varint_bytes(tag_of_encoder(e) as nat) + varint_bytes(st.last() as nat),
        ) {
            Err(err) => Err(err.at_index(i)),
            Ok((st2, out2)) => items_encode_spec(e, items, i + 1, st2, out2),
        }
    }
}

/// The second pass over the contents of a message.
pub open spec fn inner_encode_spec(e: EncoderV, v: Value, st: Seq<u32>, out: Seq<u8>) -> Written
    decreases e, 2int, 0int,
{
    match v {
        Value::Record(fields) => fields_encode_spec(e, fields, 0, st, out),
        _ => Err(fail(MESSAGE_NON_RECORD)),
    }
}

/// The second pass over the fields of a record from index `i` on.
pub open spec fn fields_encode_spec(e: EncoderV, fields: Seq<(Seq<char>, Value)>, i: int, st: Seq<u32>, out: Seq<u8>) -> Written
    decreases e, 1int, fields.len() - i,
{
    if i < 0 || i >= fields.len() {
        Ok((st, out))
    } else {
        let (name, fv) = fields[i];
        match find_encoder(subencoders(e), name) {
            None => Err(fail(NO_ENCODER_FOR_FIELD).at_field(name)),
            Some(j) => {
                proof {
                    lemma_find_encoder(subencoders(e), name);
                    assert(decreases_to!(e => subencoders(e)[j].1));
                }
                match encode_spec(subencoders(e)[j].1, fv, st, out) {
                    Err(err) => Err(err.at_field(name)),
                    Ok((st2, out2)) => fields_encode_spec(e, fields, i + 1, st2, out2),
                }
            },
        }
    }
}

/// The index of the last encoder named `name`.
fn lookup_encoder(subs: &Vec<(String, Encoder)>, name: &String) -> (r: Option<usize>)
    ensures
        match find_encoder(named_view(subs@), name@) {
            Some(j) => r matches Some(k) && k == j && 0 <= j < subs@.len(),
            None => r is None,
        },
{
    let ghost all = named_view(subs@);
    let mut i = subs.len();
    assert(all.take(i as int) =~= all);
    while i > 0
        invariant
            i <= subs@.len(),
            all == named_view(subs@),
            find_encoder(all, name@) == find_encoder(all.take(i as int), name@),
        decreases i,
    {
        assert(all.take(i as int).drop_last() =~= all.take(i - 1));
        if subs[i - 1].0 == *name {
            proof {
                lemma_find_encoder(all.take(i as int), name@);
            }
            return Some(i - 1);
        }
        i = i - 1;
    }
    None
}

impl Encoder {
    /// The first pass: the length of `v` as encoded, pushing the lengths of its
    /// length-delimited parts onto `lengths`.
    pub fn length(&self, v: &Val, lengths: &mut Vec<u32>) -> (r: Result<u32, EncodeError>)
        ensures
            length_agrees(r, final(lengths)@, length_spec(self@, v@, old(lengths)@)),
            self@ matches EncoderV::Scalar(c, _) && packs_unpackable(c) ==> final(lengths)@
                == old(lengths)@,
        decreases self, 4int, 0int,
    {
        match self {
            Encoder::Scalar(c, t) => scalar_length(*c, *t, v, lengths),
            Encoder::Enum(k, t, vars) => enum_length(*k, *t, vars, v, lengths),
            Encoder::Message(k, _, subs) => match k {
                MessageEncode::Inner => message_inner_length(self, subs, v, lengths),
                MessageEncode::Outer => message_outer_length(self, subs, v, lengths),
                MessageEncode::Repeated => message_repeated_length(self, subs, v, lengths),
            },
            Encoder::Oneof(subs) => oneof_length(self, subs, v, lengths),
        }
    }

    /// The second pass: writes `v` to `buf`, popping the length of each
    /// length-delimited part from `lengths` before writing it.
    pub fn encode(&self, v: &Val, lengths: &mut Vec<u32>, buf: &mut Vec<u8>) -> (r: Result<(), EncodeError>)
        ensures
            encode_agrees(r, final(lengths)@, final(buf)@, encode_spec(self@, v@, old(lengths)@, old(buf)@)),
            self@ matches EncoderV::Scalar(c, _) && packs_unpackable(c) ==> final(lengths)@
                == old(lengths)@ && final(buf)@ == old(buf)@,
        decreases self, 4int, 0int,
    {
        match self {
            Encoder::Scalar(c, t) => scalar_encode(*c, *t, v, lengths, buf),
            Encoder::Enum(k, t, vars) => enum_encode(*k, *t, vars, v, lengths, buf),
            Encoder::Message(k, _, subs) => match k {
                MessageEncode::Inner => message_inner_encode(self, subs, v, lengths, buf),
                MessageEncode::Outer => message_outer_encode(self, subs, v, lengths, buf),
                MessageEncode::Repeated => message_repeated_encode(self, subs, v, lengths, buf),
            },
            Encoder::Oneof(subs) => oneof_encode(self, subs, v, lengths, buf),
        }
    }
}

/// The first pass over the contents of a message: its fields from the last one back,
/// so that their lengths are popped in field order.
fn message_inner_length(e: &Encoder, subs: &Vec<(String, Encoder)>, v: &Val, lengths: &mut Vec<u32>) -> (r: Result<u32, EncodeError>)
    requires
        e is Message,
        *subs == e->Message_2,
    ensures
        length_agrees(r, final(lengths)@, inner_length_spec(e@, v@, old(lengths)@)),
    decreases subs, 2int, 0int,
{
    let fields = match v {
        Val::Record(fields) => fields,
        _ => {
            return Err(EncodeError::new(MESSAGE_NON_RECORD));
        },
    };
    proof {
        crate::runtime::value::lemma_record_view(*fields);
    }
    proof {
        lemma_message_view(e->Message_0, e->Message_1, *subs);
    }
    let ghost rv = record_view(fields@);
    let mut total: u32 = 0;
    let mut k = fields.len();
    while k > 0
        invariant
            k <= fields@.len(),
            rv == record_view(fields@),
            v@ == Value::Record(rv),
            e is Message,
            *subs == e->Message_2,
            named_view(subs@) == subencoders(e@),
            fields_length_spec(e@, rv, rv.len() as int, old(lengths)@, 0)
                == fields_length_spec(e@, rv, k as int, lengths@, total),
        decreases k,
    {
        let name = &fields[k - 1].0;
        assert(rv[k - 1] == (name@, fields@[k - 1].1@));
        match lookup_encoder(subs, name) {
            None => {
                return Err(EncodeError::new(NO_ENCODER_FOR_FIELD).with_field(name.clone()));
            },
            Some(j) => {
                assert(named_view(subs@)[j as int].1 == subs@[j as int].1@);
                match subs[j].1.length(&fields[k - 1].1, lengths) {
                    Ok(l) => {
                        total = total.saturating_add(l);
                    },
                    Err(err) => {
                        return Err(err.with_field(name.clone()));
                    },
                }
            },
        }
        k = k - 1;
    }
    Ok(total)
}

/// The first pass over an optional message: its contents, then its own length is pushed.
fn message_outer_length(e: &Encoder, subs: &Vec<(String, Encoder)>, v: &Val, lengths: &mut Vec<u32>) -> (r: Result<u32, EncodeError>)
    requires
        e is Message,
        e->Message_0 == MessageEncode::Outer,
        *subs == e->Message_2,
    ensures
        length_agrees(r, final(lengths)@, length_spec(e@, v@, old(lengths)@)),
    decreases subs, 3int, 0int,
{
    let tag = match e {
        Encoder::Message(k, t, subs) => {
            proof {
                lemma_message_view(*k, *t, *subs);
            }
            *t
        },
        _ => 0,
    };
    match v {
        Val::Option(o) => match o {
            None => Ok(0),
            Some(x) => {
                let length = message_inner_length(e, subs, x, lengths)?;
                lengths.push(length);
                Ok(length.saturating_add((varint_length(tag) + varint_length(length as u64)) as u32))
            },
        },
        _ => Err(EncodeError::new(MESSAGE_NON_OPTIONAL)),
    }
}

/// The first pass over a repeated message: the length of each item with its tag and length.
fn message_repeated_length(e: &Encoder, subs: &Vec<(String, Encoder)>, v: &Val, lengths: &mut Vec<u32>) -> (r: Result<u32, EncodeError>)
    requires
        e is Message,
        e->Message_0 == MessageEncode::Repeated,
        *subs == e->Message_2,
    ensures
        length_agrees(r, final(lengths)@, length_spec(e@, v@, old(lengths)@)),
    decreases subs, 3int, 0int,
{
    let tag = match e {
        Encoder::Message(k, t, subs) => {
            proof {
                lemma_message_view(*k, *t, *subs);
            }
            *t
        },
        _ => 0,
    };
    let items = match v {
        Val::List(items) => items,
        _ => {
            return Err(EncodeError::new(REPEATED_NON_LIST));
        },
    };
    proof {
        crate::runtime::value::lemma_list_view(*items);
    }
    let ghost iv = list_view(items@);
    let mut total: u32 = 0;
    for i in 0..items.len()
        invariant
            iv == list_view(items@),
            v@ == Value::List(iv),
            tag == tag_of_encoder(e@),
            e is Message,
            *subs == e->Message_2,
            e@ == EncoderV::Message(MessageEncode::Repeated, tag, named_view(subs@)),
            items_length_spec(e@, iv, 0, old(lengths)@, 0) == items_length_spec(e@, iv, i as int, lengths@, total),
    {
        match message_inner_length(e, subs, &items[i], lengths) {
            Ok(l) => {
                total = total.saturating_add(l.saturating_add((varint_length(tag) + varint_length(l as u64)) as u32));
            },
            Err(err) => {
                return Err(err.with_index(i));
            },
        }
    }
    Ok(total)
}

/// The first pass over a oneof: the length of its variant's payload, as an explicit field.
fn oneof_length(e: &Encoder, subs: &Vec<(String, Encoder)>, v: &Val, lengths: &mut Vec<u32>) -> (r: Result<u32, EncodeError>)
    requires
        e is Oneof,
        *subs == e->Oneof_0,
    ensures
        length_agrees(r, final(lengths)@, length_spec(e@, v@, old(lengths)@)),
    decreases subs, 3int, 0int,
{
    proof {
        lemma_oneof_view(*subs);
        reveal_with_fuel(crate::runtime::value::val_model, 3);
    }
    match v {
        Val::Option(o) => match o {
            None => Ok(0),
            Some(x) => match &**x {
                Val::Variant(name, payload) => match lookup_encoder(subs, name) {
                    None => Err(EncodeError::new(ONEOF_VARIANT_UNRECOGNIZED).with_field(name.clone())),
                    Some(j) => match payload {
                        None => Err(EncodeError::new(ONEOF_VARIANT_NO_PAYLOAD).with_field(name.clone())),
                        Some(p) => {
                            // The variant's encoder tracks presence explicitly: give it an option.
                            let wrapped = Val::Option(Some(Box::new(clone_val(p))));
                            assert(named_view(subs@)[j as int].1 == subs@[j as int].1@);
                            match subs[j].1.length(&wrapped, lengths) {
                                Ok(l) => Ok(l),
                                Err(err) => Err(err.with_field(name.clone())),
                            }
                        },
                    },
                },
                _ => Err(EncodeError::new(ONEOF_NON_VARIANT)),
            },
        },
        _ => Err(EncodeError::new(ONEOF_NON_OPTIONAL)),
    }
}

/// The second pass over the contents of a message: its fields in order.
fn message_inner_encode(e: &Encoder, subs: &Vec<(String, Encoder)>, v: &Val, lengths: &mut Vec<u32>, buf: &mut Vec<u8>) -> (r: Result<(), EncodeError>)
    requires
        e is Message,
        *subs == e->Message_2,
    ensures
        encode_agrees(r, final(lengths)@, final(buf)@, inner_encode_spec(e@, v@, old(lengths)@, old(buf)@)),
    decreases subs, 2int, 0int,
{
    let fields = match v {
        Val::Record(fields) => fields,
        _ => {
            return Err(EncodeError::new(MESSAGE_NON_RECORD));
        },
    };
    proof {
        crate::runtime::value::lemma_record_view(*fields);
    }
    proof {
        lemma_message_view(e->Message_0, e->Message_1, *subs);
    }
    let ghost rv = record_view(fields@);
    for i in 0..fields.len()
        invariant
            rv == record_view(fields@),
            v@ == Value::Record(rv),
            e is Message,
            *subs == e->Message_2,
            named_view(subs@) == subencoders(e@),
            fields_encode_spec(e@, rv, 0, old(lengths)@, old(buf)@)
                == fields_encode_spec(e@, rv, i as int, lengths@, buf@),
    {
        let name = &fields[i].0;
        assert(rv[i as int] == (name@, fields@[i as int].1@));
        match lookup_encoder(subs, name) {
            None => {
                return Err(EncodeError::new(NO_ENCODER_FOR_FIELD).with_field(name.clone()));
            },
            Some(j) => {
                assert(named_view(subs@)[j as int].1 == subs@[j as int].1@);
                match subs[j].1.encode(&fields[i].1, lengths, buf) {
                    Ok(()) => {},
                    Err(err) => {
                        return Err(err.with_field(name.clone()));
                    },
                }
            },
        }
    }
    Ok(())
}

/// The second pass over an optional message: its tag, its popped length, then its contents.
fn message_outer_encode(e: &Encoder, subs: &Vec<(String, Encoder)>, v: &Val, lengths: &mut Vec<u32>, buf: &mut Vec<u8>) -> (r: Result<(), EncodeError>)
    requires
        e is Message,
        e->Message_0 == MessageEncode::Outer,
        *subs == e->Message_2,
    ensures
        encode_agrees(r, final(lengths)@, final(buf)@, encode_spec(e@, v@, old(lengths)@, old(buf)@)),
    decreases subs, 3int, 0int,
{
    let tag = match e {
        Encoder::Message(k, t, subs) => {
            proof {
                lemma_message_view(*k, *t, *subs);
            }
            *t
        },
        _ => 0,
    };
    match v {
        Val::Option(o) => match o {
            None => Ok(()),
            Some(x) => match lengths.pop() {
                Some(length) => {
                    write_varint(tag, buf);
                    write_varint(length as u64, buf);
                    message_inner_encode(e, subs, x, lengths, buf)
                },
                None => Err(EncodeError::new(LENGTH_INCONSISTENCY)),
            },
        },
        _ => Err(EncodeError::new(MESSAGE_NON_OPTIONAL)),
    }
}

/// The second pass over a repeated message: each item's tag, popped length and contents.
fn message_repeated_encode(e: &Encoder, subs: &Vec<(String, Encoder)>, v: &Val, lengths: &mut Vec<u32>, buf: &mut Vec<u8>) -> (r: Result<(), EncodeError>)
    requires
        e is Message,
        e->Message_0 == MessageEncode::Repeated,
        *subs == e->Message_2,
    ensures
        encode_agrees(r, final(lengths)@, final(buf)@, encode_spec(e@, v@, old(lengths)@, old(buf)@)),
    decreases subs, 3int, 0int,
{
    let tag = match e {
        Encoder::Message(k, t, subs) => {
            proof {
                lemma_message_view(*k, *t, *subs);
            }
            *t
        },
        _ => 0,
    };
    let items = match v {
        Val::List(items) => items,
        _ => {
            return Err(EncodeError::new(REPEATED_NON_LIST));
        },
    };
    proof {
        crate::runtime::value::lemma_list_view(*items);
    }
    let ghost iv = list_view(items@);
    for i in 0..items.len()
        invariant
            iv == list_view(items@),
            v@ == Value::List(iv),
            tag == tag_of_encoder(e@),
            e is Message,
            *subs == e->Message_2,
            e@ == EncoderV::Message(MessageEncode::Repeated, tag, named_view(subs@)),
            items_encode_spec(e@, iv, 0, old(lengths)@, old(buf)@)
                == items_encode_spec(e@, iv, i as int, lengths@, buf@),
    {
        match lengths.pop() {
            Some(length) => {
                write_varint(tag, buf);
                write_varint(length as u64, buf);
                match message_inner_encode(e, subs, &items[i], lengths, buf) {
                    Ok(()) => {},
                    Err(err) => {
                        return Err(err.with_index(i));
                    },
                }
            },
            None => {
                return Err(EncodeError::new(LENGTH_INCONSISTENCY).with_index(i));
            },
        }
    }
    Ok(())
}

/// The second pass over a oneof: its variant's payload, as an explicit field.
fn oneof_encode(e: &Encoder, subs: &Vec<(String, Encoder)>, v: &Val, lengths: &mut Vec<u32>, buf: &mut Vec<u8>) -> (r: Result<(), EncodeError>)
    requires
        e is Oneof,
        *subs == e->Oneof_0,
    ensures
        encode_agrees(r, final(lengths)@, final(buf)@, encode_spec(e@, v@, old(lengths)@, old(buf)@)),
    decreases subs, 3int, 0int,
{
    proof {
        lemma_oneof_view(*subs);
        reveal_with_fuel(crate::runtime::value::val_model, 3);
    }
    match v {
        Val::Option(o) => match o {
            None => Ok(()),
            Some(x) => match &**x {
                Val::Variant(name, payload) => match lookup_encoder(subs, name) {
                    None => Err(EncodeError::new(ONEOF_VARIANT_UNRECOGNIZED).with_field(name.clone())),
                    Some(j) => match payload {
                        None => Err(EncodeError::new(ONEOF_VARIANT_NO_PAYLOAD).with_field(name.clone())),
                        Some(p) => {
                            // The variant's encoder tracks presence explicitly: give it an option.
                            let wrapped = Val::Option(Some(Box::new(clone_val(p))));
                            assert(named_view(subs@)[j as int].1 == subs@[j as int].1@);
                            match subs[j].1.encode(&wrapped, lengths, buf) {
                                Ok(()) => Ok(()),
                                Err(err) => Err(err.with_field(name.clone())),
                            }
                        },
                    },
                },
                _ => Err(EncodeError::new(ONEOF_NON_VARIANT)),
            },
        },
        _ => Err(EncodeError::new(ONEOF_NON_OPTIONAL)),
    }
}

// ---------------------------------------------------------------------------------------
// Compiling metadata into encoders.

pub const NO_CODING: &'static str = "encoder-subfield-no-coding";
pub const ONEOF_SUBFIELD_NON_EXPLICIT: &'static str = "oneof-subfield-non-explicit";
pub const BAD_SCALAR_CODING: &'static str = "bad-scalar-coding";
pub const BAD_COMPOUND_CODING: &'static str = "bad-compound-coding";
pub const ENCODE_ERROR: &'static str = "encode-error";

/// The encoder of a scalar field numbered `number`: packed fields are length-delimited.
pub open spec fn scalar_encoder_spec(c: ScalarCoding, number: u32) -> EncoderV {
    EncoderV::Scalar(
        c,
        tag_of(
            number,
            if c.presence == Presence::Packed {
                2
            } else {
                scalar_wire(c.ty)
            },
        ),
    )
}

/// The variants of an enumeration, numbers by name, in order.
pub open spec fn enum_numbers_spec(fs: Seq<FieldV>) -> Seq<(Seq<char>, u32)> {
    Seq::new(fs.len(), |j: int| (fs[j].name, fs[j].number))
}

/// The encoder of an enumeration field: packed fields are length-delimited, the others varints.
pub open spec fn enum_encoder_spec(f: FieldV, k: EnumEncode) -> EncoderV {
    EncoderV::Enum(k, tag_of(f.number, if k == EnumEncode::Packed { 2 } else { 0 }), enum_numbers_spec(f.subfields))
}

/// Compiles a message field into an encoder of kind `k`.
pub open spec fn message_encoder_spec(f: FieldV, k: MessageEncode) -> Result<EncoderV, StatusView>
    decreases f, 1int, 0int,
{
    match compile_compound_spec(f, false) {
        Err(e) => Err(e),
        Ok(subs) => Ok(EncoderV::Message(k, tag_of(f.number, 2), subs)),
    }
}

/// Compiles a oneof field into an encoder.
pub open spec fn oneof_encoder_spec(f: FieldV) -> Result<EncoderV, StatusView>
    decreases f, 1int, 0int,
{
    match compile_compound_spec(f, true) {
        Err(e) => Err(e),
        Ok(subs) => Ok(EncoderV::Oneof(subs)),
    }
}

/// Compiles the subfields of a message or oneof into named encoders;
/// a oneof's must track presence explicitly.
pub open spec fn compile_compound_spec(f: FieldV, is_oneof: bool) -> Result<Seq<(Seq<char>, EncoderV)>, StatusView>
    decreases f, 0int, 0int,
{
    compile_encoders_spec(f.subfields, 0, is_oneof, seq![])
}

/// Compiles the fields from index `i` on, extending the named encoders built so far.
pub open spec fn compile_encoders_spec(
    fs: Seq<FieldV>,
    i: int,
    is_oneof: bool,
    acc: Seq<(Seq<char>, EncoderV)>,
) -> Result<Seq<(Seq<char>, EncoderV)>, StatusView>
    decreases fs, 2int, fs.len() - i,
{
    if i < 0 || i >= fs.len() {
        Ok(acc)
    } else {
        let f = fs[i];
        match f.coding {
            None => Err(status(Code::Internal, NO_CODING)),
            Some(Coding::ScalarCoding(c)) => if is_oneof && !is_explicit_scalar(c) {
                Err(status(Code::Internal, ONEOF_SUBFIELD_NON_EXPLICIT))
            } else {
                match scalar_coding_of(c as int) {
                    None => Err(status(Code::Internal, BAD_SCALAR_CODING)),
                    Some(sc) => compile_encoders_spec(fs, i + 1, is_oneof, acc.push((f.name, scalar_encoder_spec(sc, f.number)))),
                }
            },
            Some(Coding::CompoundCoding(c)) => if is_oneof && c != 4 && c != 2 {
                Err(status(Code::Internal, ONEOF_SUBFIELD_NON_EXPLICIT))
            } else {
                let next = |e: EncoderV| compile_encoders_spec(fs, i + 1, is_oneof, acc.push((f.name, e)));
                match compound_coding_of(c as int) {
                    None => Err(status(Code::Internal, BAD_COMPOUND_CODING)),
                    Some(CompoundCoding::EnumImplicit) => next(enum_encoder_spec(f, EnumEncode::Implicit)),
                    Some(CompoundCoding::EnumPacked) => next(enum_encoder_spec(f, EnumEncode::Packed)),
                    Some(CompoundCoding::EnumExplicit) => next(enum_encoder_spec(f, EnumEncode::Explicit)),
                    Some(CompoundCoding::EnumExpanded) => next(enum_encoder_spec(f, EnumEncode::Expanded)),
                    Some(CompoundCoding::Message) => match message_encoder_spec(f, MessageEncode::Outer) {
                        Err(e) => Err(e),
                        Ok(e) => next(e),
                    },
                    Some(CompoundCoding::MessageExpanded) => match message_encoder_spec(f, MessageEncode::Repeated) {
                        Err(e) => Err(e),
                        Ok(e) => next(e),
                    },
                    Some(CompoundCoding::Oneof) => match oneof_encoder_spec(f) {
                        Err(e) => Err(e),
                        Ok(e) => next(e),
                    },
                }
            },
        }
    }
}

/// Whether an executable compilation result agrees with its model.
pub open spec fn compiled(r: Result<Encoder, Status>, s: Result<EncoderV, StatusView>) -> bool {
    match s {
        Ok(e) => r matches Ok(x) && x@ == e,
        Err(e) => r matches Err(x) && x@ == e,
    }
}

impl Encoder {
    /// The encoder of a scalar field numbered `number`.
    pub fn scalar(coding: ScalarCoding, number: u32) -> (e: Encoder)
        ensures
            e@ == scalar_encoder_spec(coding, number),
    {
        let wire_type: u64 = if coding.presence == Presence::Packed {
            2
        } else {
            match coding.ty {
                ScalarType::Bytes | ScalarType::StringUtf8 | ScalarType::StringPermissive => 2,
                ScalarType::Sfixed32 | ScalarType::Fixed32 | ScalarType::Float => 5,
                ScalarType::Sfixed64 | ScalarType::Fixed64 | ScalarType::Double => 1,
                _ => 0,
            }
        };
        Encoder::Scalar(coding, tag(number, wire_type))
    }

    /// Compiles the metadata of a response message into the encoder of its contents.
    pub fn message_inner(message: &Field) -> (r: Result<Encoder, Status>)
        ensures
            compiled(r, message_encoder_spec(message@, MessageEncode::Inner)),
    {
        compile_message(message, MessageEncode::Inner)
    }

    /// The encoder of an enumeration field.
    pub fn enumeration(enumeration: &Field, k: EnumEncode) -> (e: Encoder)
        ensures
            e@ == enum_encoder_spec(enumeration@, k),
    {
        let wire_type: u64 = if k == EnumEncode::Packed { 2 } else { 0 };
        let mut variants: Vec<(String, u32)> = Vec::new();
        for i in 0..enumeration.subfields.len()
            invariant
                variants@.len() == i,
                forall|j: int| 0 <= j < i ==> (#[trigger] variants@[j]).0@ == enumeration.subfields@[j].name@
                    && variants@[j].1 == enumeration.subfields@[j].number,
        {
            let subfield = &enumeration.subfields[i];
            variants.push((subfield.name.clone(), subfield.number));
        }
        proof {
            reveal_with_fuel(crate::runtime::schema::field_model, 2);
            assert(numbers_view(variants@) =~= enum_numbers_spec(enumeration@.subfields));
        }
        Encoder::Enum(k, tag(enumeration.number, wire_type), variants)
    }
}

/// Compiles a message field into an encoder of kind `kind`.
fn compile_message(message: &Field, kind: MessageEncode) -> (r: Result<Encoder, Status>)
    ensures
        compiled(r, message_encoder_spec(message@, kind)),
    decreases message, 1int, 0int,
{
    let subs = compile_compound(message, false)?;
    let e = Encoder::Message(kind, tag(message.number, 2), subs);
    proof {
        lemma_message_view(kind, tag_of(message.number, 2), subs);
    }
    Ok(e)
}

/// Compiles a oneof field into an encoder.
fn compile_oneof(oneof: &Field) -> (r: Result<Encoder, Status>)
    ensures
        compiled(r, oneof_encoder_spec(oneof@)),
    decreases oneof, 1int, 0int,
{
    let subs = compile_compound(oneof, true)?;
    let e = Encoder::Oneof(subs);
    proof {
        lemma_oneof_view(subs);
    }
    Ok(e)
}

/// Compiles the subfields of a message or oneof into named encoders.
fn compile_compound(field: &Field, is_oneof: bool) -> (r: Result<Vec<(String, Encoder)>, Status>)
    ensures
        match compile_compound_spec(field@, is_oneof) {
            Ok(subs) => r matches Ok(v) && named_view(v@) == subs,
            Err(e) => r matches Err(x) && x@ == e,
        },
    decreases field, 0int, 0int,
{
    let mut subs: Vec<(String, Encoder)> = Vec::new();
    let ghost fs = field@.subfields;
    let n = field.subfields.len();
    proof {
        reveal_with_fuel(crate::runtime::schema::field_model, 1);
    }
    assert(named_view(subs@) =~= seq![]);
    for i in 0..n
        invariant
            n == field.subfields@.len(),
            fs == field@.subfields,
            fs.len() == n,
            forall|k: int| 0 <= k < n ==> #[trigger] fs[k] == field.subfields@[k]@,
            compile_encoders_spec(fs, 0, is_oneof, seq![])
                == compile_encoders_spec(fs, i as int, is_oneof, named_view(subs@)),
    {
        let subfield = &field.subfields[i];
        assert(fs[i as int] == subfield@);
        let coding = match subfield.coding {
            Some(c) => c,
            None => {
                return Err(Status::internal(NO_CODING));
            },
        };
        let encoder = match coding {
            Coding::ScalarCoding(c) => {
                if is_oneof && !explicit_scalar(c) {
                    return Err(Status::internal(ONEOF_SUBFIELD_NON_EXPLICIT));
                }
                match ScalarCoding::try_from(c) {
                    Some(sc) => Encoder::scalar(sc, subfield.number),
                    None => {
                        return Err(Status::internal(BAD_SCALAR_CODING));
                    },
                }
            },
            Coding::CompoundCoding(c) => {
                if is_oneof && c != 4 && c != 2 {
                    return Err(Status::internal(ONEOF_SUBFIELD_NON_EXPLICIT));
                }
                match CompoundCoding::try_from(c) {
                    None => {
                        return Err(Status::internal(BAD_COMPOUND_CODING));
                    },
                    Some(CompoundCoding::EnumImplicit) => Encoder::enumeration(subfield, EnumEncode::Implicit),
                    Some(CompoundCoding::EnumPacked) => Encoder::enumeration(subfield, EnumEncode::Packed),
                    Some(CompoundCoding::EnumExplicit) => Encoder::enumeration(subfield, EnumEncode::Explicit),
                    Some(CompoundCoding::EnumExpanded) => Encoder::enumeration(subfield, EnumEncode::Expanded),
                    Some(CompoundCoding::Message) => compile_message(subfield, MessageEncode::Outer)?,
                    Some(CompoundCoding::MessageExpanded) => compile_message(subfield, MessageEncode::Repeated)?,
                    Some(CompoundCoding::Oneof) => compile_oneof(subfield)?,
                }
            },
        };
        let ghost before = named_view(subs@);
        let ghost ev = encoder@;
        subs.push((subfield.name.clone(), encoder));
        proof {
            assert(named_view(subs@) =~= before.push((subfield@.name, ev)));
        }
    }
    Ok(subs)
}

// ---------------------------------------------------------------------------------------
// Responses.

/// Encodes top-level response messages: a compiled encoder for the message's contents,
/// and the component the responses are from.
#[derive(Debug)]
pub struct ResponseEncoder {
    pub inner: Encoder,
    pub component: ComponentName,
}

/// Encodes a whole response with encoder `e` after the bytes `out`:
/// the length pass, then the encoding pass with the lengths it pushed.
pub open spec fn response_spec(e: EncoderV, v: Value, out: Seq<u8>) -> Result<Seq<u8>, StatusView> {
    match length_spec(e, v, seq![]) {
        Err(_) => Err(status(Code::Internal, ENCODE_ERROR)),
        Ok((_, st)) => match encode_spec(e, v, st, out) {
            Err(_) => Err(status(Code::Internal, ENCODE_ERROR)),
            Ok((_, bytes)) => Ok(bytes),
        },
    }
}

impl ResponseEncoder {
    /// Compiles the encoder of `response` messages for `component`.
    pub fn new(response: &Field, component: ComponentName) -> (r: Result<Self, Status>)
        ensures
            match message_encoder_spec(response@, MessageEncode::Inner) {
                Ok(e) => r matches Ok(x) && x.inner@ == e && x.component == component,
                Err(e) => r matches Err(x) && x@ == e,
            },
    {
        let inner = Encoder::message_inner(response)?;
        Ok(ResponseEncoder { inner, component })
    }

    /// Encodes a response message (without tag or length) after the bytes in `dst`.
    pub fn encode(&self, item: &Val, dst: &mut Vec<u8>) -> (r: Result<(), Status>)
        ensures
            match response_spec(self.inner@, item@, old(dst)@) {
                Ok(bytes) => r is Ok && final(dst)@ == bytes,
                Err(e) => r matches Err(x) && x@ == e,
            },
    {
        let mut lengths: Vec<u32> = Vec::new();
        match self.inner.length(item, &mut lengths) {
            Ok(_) => {},
            Err(_) => {
                return Err(Status::internal(ENCODE_ERROR));
            },
        }
        match self.inner.encode(item, &mut lengths, dst) {
            Ok(()) => Ok(()),
            Err(_) => Err(Status::internal(ENCODE_ERROR)),
        }
    }
}

/// How a level of the traceback is shown: `.name` for a field, `[index]` for an item.
pub open spec fn level_text(l: EncodeLevelV) -> Seq<char> {
    match l {
        EncodeLevelV::Field(name) => seq!['.'] + name,
        EncodeLevelV::Index(i) => seq!['['] + decimal_string(i as nat) + seq![']'],
    }
}

/// How a traceback is shown: its levels outermost first.
pub open spec fn traceback_text(t: Seq<EncodeLevelV>) -> Seq<char>
    decreases t.len(),
{
    if t.len() == 0 {
        seq![]
    } else {
        traceback_text(t.drop_first()) + level_text(t[0])
    }
}

/// How an error is shown: `EncodeError(.path.to[0].the.field): message`.
pub open spec fn describe_spec(e: EncodeErrorV) -> Seq<char> {
    "EncodeError("@ + traceback_text(e.traceback) + "): "@ + e.message
}

impl EncodeError {
    /// The error as text: where it was met, outermost level first, and its message.
    pub fn describe(&self) -> (s: String)
        ensures
            s@ == describe_spec(self@),
    {
        let mut out = String::new();
        out.append("EncodeError(");
        let ghost t = levels_view(self.traceback@);
        let mut i = self.traceback.len();
        assert(t.subrange(i as int, t.len() as int) =~= seq![]);
        while i > 0
            invariant
                i <= t.len(),
                t == levels_view(self.traceback@),
                out@ == "EncodeError("@ + traceback_text(t.subrange(i as int, t.len() as int)),
            decreases i,
        {
            let ghost before = out@;
            match &self.traceback[i - 1] {
                EncodeLevel::Field(name) => {
                    out.append(".");
                    proof {
                        reveal_strlit(".");
                    }
                    out.append(name.as_str());
                },
                EncodeLevel::Index(index) => {
                    out.append("[");
                    push_decimal(&mut out, *index);
                    out.append("]");
                    proof {
                        reveal_strlit("[");
                        reveal_strlit("]");
                    }
                },
            }
            proof {
                let s = t.subrange(i - 1, t.len() as int);
                assert(s.drop_first() =~= t.subrange(i as int, t.len() as int));
                assert(s[0] == t[i - 1]);
                assert(out@ =~= before + level_text(t[i - 1]));
            }
            i = i - 1;
        }
        assert(t.subrange(0, t.len() as int) =~= t);
        out.append("): ");
        out.append(self.message);
        out
    }
}

} // verus!
