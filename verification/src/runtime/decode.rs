//! Decoding incoming Protobuf requests into component record values.
//!
//! A request's metadata is compiled once into a [`Merger`] tree, which then decodes
//! each request: every field read is merged into the value built so far,
//! starting from the defaults of its record.
//!
//! Decoding reads from a byte buffer at a position, and charges what it reads against a
//! limit (the bytes left in the enclosing message). A varint is charged by the length of its
//! shortest encoding. Reading past the end of the buffer is refused as an underflow.

use vstd::prelude::*;

use crate::runtime::error::{status, Code, Status, StatusView};
use crate::runtime::names::ComponentName;
use crate::text::{decimal_string, push_decimal};
use crate::runtime::schema::{
    compound_coding_of, explicit_scalar, is_explicit_scalar, scalar_coding_of, Coding,
    CompoundCoding, Field, FieldV, Presence, ScalarCoding, ScalarType,
};
use crate::runtime::value::{clone_fields, clone_val, list_view, record_view, Val, Value};
use crate::runtime::wire::{
    lemma_varint_bytes, read_varint_at, sint32_from, sint64_from, sint64_value, varint_len,
    varint_length, varint_read, zigzag_decode,
};
use vstd::bytes::{spec_u32_from_le_bytes, spec_u64_from_le_bytes, u32_from_le_bytes, u64_from_le_bytes};
use vstd::utf8::valid_utf8;

verus! {

pub const BUFFER_UNDERFLOW: &'static str = "Buffer underflow";
pub const BUFFER_OVERFLOW: &'static str = "Buffer overflow";
pub const INVALID_TAG_VARINT: &'static str = "Invalid varint for tag";
pub const INVALID_LENGTH_VARINT: &'static str = "Invalid varint for length";
pub const INVALID_VARINT: &'static str = "Invalid varint";
pub const INVALID_FIELD_NUMBER: &'static str = "Invalid field number";
pub const INVALID_WIRE_TYPE: &'static str = "Invalid wire type";
pub const WIRETYPE_NON_VARINT: &'static str = "Wire type should be varint";
pub const WIRETYPE_NON_LENGTH_DELIMITED: &'static str = "Wire type should be length-delimited";
pub const WIRETYPE_NON_32BIT: &'static str = "Wire type should be 32-bit";
pub const WIRETYPE_NON_64BIT: &'static str = "Wire type should be 64-bit";
pub const OVERFLOW_32BIT: &'static str = "Overflowed 32 bits";
pub const INVALID_UTF8: &'static str = "Invalid UTF-8";
pub const INVALID_BOOL: &'static str = "Invalid boolean value";
pub const ENUM_NO_DEFAULT: &'static str = "Enum has no default value";
pub const NON_EXPLICIT_ONEOF_VARIANT: &'static str = "Oneof variant is not explicitly presence-tracked";
pub const MESSAGE_NON_RECORD: &'static str = "Message is not a record";
pub const FIELD_INDEX_OUT_OF_BOUNDS: &'static str = "Field index out of bounds";
pub const REPEATED_NON_LIST: &'static str = "Repeated value is not a list";

/// The wire types of Protobuf, numbered from zero in this order.
#[derive(Clone, Copy, Debug, PartialEq, Eq, Structural)]
pub enum WireType {
    Varint,
    SixtyFourBit,
    LengthDelimited,
    StartGroup,
    EndGroup,
    ThirtyTwoBit,
}

/// The wire type numbered `n`, for `n` below six.
pub open spec fn wire_type_of(n: int) -> WireType {
    if n == 0 {
        WireType::Varint
    } else if n == 1 {
        WireType::SixtyFourBit
    } else if n == 2 {
        WireType::LengthDelimited
    } else if n == 3 {
        WireType::StartGroup
    } else if n == 4 {
        WireType::EndGroup
    } else {
        WireType::ThirtyTwoBit
    }
}

/// A level of nesting in the traceback of a decoding error.
#[derive(Clone, Copy, Debug, PartialEq, Eq, Structural)]
pub enum DecodeLevel {
    /// A message field, by number.
    Field(u32),
    /// An item of a repeated field, by index.
    Index(usize),
}

/// An error met while decoding: a message and where it was met, innermost level first.
#[derive(Debug)]
pub struct DecodeError {
    pub message: &'static str,
    pub traceback: Vec<DecodeLevel>,
}

/// The model of a decoding error.
pub struct DecodeErrorV {
    pub message: Seq<char>,
    pub traceback: Seq<DecodeLevel>,
}

impl View for DecodeError {
    type V = DecodeErrorV;

    open spec fn view(&self) -> DecodeErrorV {
        DecodeErrorV { message: self.message@, traceback: self.traceback@ }
    }
}

/// An error with a message and an empty traceback.
pub open spec fn fail(message: &'static str) -> DecodeErrorV {
    DecodeErrorV { message: message@, traceback: seq![] }
}

impl DecodeErrorV {
    pub open spec fn at_field(self, number: u32) -> DecodeErrorV {
        DecodeErrorV { message: self.message, traceback: self.traceback.push(DecodeLevel::Field(number)) }
    }

    pub open spec fn at_index(self, i: int) -> DecodeErrorV {
        DecodeErrorV {
            message: self.message,
            traceback: self.traceback.push(DecodeLevel::Index(i as usize)),
        }
    }
}

impl DecodeError {
    pub fn new(message: &'static str) -> (e: Self)
        ensures
            e@ == fail(message),
    {
        DecodeError { message, traceback: Vec::new() }
    }

    /// The same error, met within the field numbered `number`.
    pub fn with_field(self, number: u32) -> (e: Self)
        ensures
            e@ == self@.at_field(number),
    {
        let mut traceback = self.traceback;
        traceback.push(DecodeLevel::Field(number));
        DecodeError { message: self.message, traceback }
    }

    /// The same error, met within the item at index `i`.
    pub fn with_index(self, i: usize) -> (e: Self)
        ensures
            e@ == self@.at_index(i as int),
    {
        let mut traceback = self.traceback;
        traceback.push(DecodeLevel::Index(i));
        DecodeError { message: self.message, traceback }
    }
}

/// Whether an executable result is an error with the given model.
pub open spec fn is_error<T>(r: Result<T, DecodeError>, e: DecodeErrorV) -> bool {
    r matches Err(x) && x@ == e
}

// ---------------------------------------------------------------------------------------
// Reading the wire format.

/// Reads a varint at `pos`, charging its shortest length to `limit`:
/// its value, the position after it and the limit left.
pub open spec fn read_varint_spec(src: Seq<u8>, pos: int, limit: u32, error: &'static str) -> Result<
    (u64, int, u32),
    DecodeErrorV,
> {
    match varint_read(src.skip(pos)) {
        None => Err(fail(error)),
        Some((v, n)) => if varint_len(v) > limit {
            Err(fail(BUFFER_OVERFLOW))
        } else {
            Ok((v as u64, pos + n, (limit - varint_len(v)) as u32))
        },
    }
}

/// Reads a tag: the field number, the wire type, the position after it and the limit left.
pub open spec fn decode_tag_spec(src: Seq<u8>, pos: int, limit: u32) -> Result<
    (u32, WireType, int, u32),
    DecodeErrorV,
> {
    match read_varint_spec(src, pos, limit, INVALID_TAG_VARINT) {
        Err(e) => Err(e),
        Ok((tag, p, l)) => if tag / 8 > u32::MAX {
            Err(fail(INVALID_FIELD_NUMBER))
        } else if tag % 8 >= 6 {
            Err(fail(INVALID_WIRE_TYPE).at_field((tag / 8) as u32))
        } else {
            Ok(((tag / 8) as u32, wire_type_of((tag % 8) as int), p, l))
        },
    }
}

/// Reads a length and charges it to the limit as well:
/// the length, the position after it and the limit left.
pub open spec fn read_length_spec(src: Seq<u8>, pos: int, limit: u32) -> Result<
    (u32, int, u32),
    DecodeErrorV,
> {
    match read_varint_spec(src, pos, limit, INVALID_LENGTH_VARINT) {
        Err(e) => Err(e),
        Ok((length, p, l)) => if length > u32::MAX {
            Err(fail(INVALID_LENGTH_VARINT))
        } else if length > l {
            Err(fail(BUFFER_OVERFLOW))
        } else {
            Ok((length as u32, p, (l - length) as u32))
        },
    }
}

/// Moves past `n` bytes of the buffer, if it holds them.
pub open spec fn advance_spec(src: Seq<u8>, pos: int, n: int) -> Result<int, DecodeErrorV> {
    if pos + n <= src.len() {
        Ok(pos + n)
    } else {
        Err(fail(BUFFER_UNDERFLOW))
    }
}

/// Skips the payload of an unknown field of the given wire type.
pub open spec fn skip_spec(wire_type: WireType, src: Seq<u8>, pos: int, limit: u32) -> Result<
    (int, u32),
    DecodeErrorV,
> {
    match wire_type {
        WireType::Varint => match read_varint_spec(src, pos, limit, INVALID_VARINT) {
            Err(e) => Err(e),
            Ok((_, p, l)) => Ok((p, l)),
        },
        WireType::SixtyFourBit => if 8 > limit {
            Err(fail(BUFFER_OVERFLOW))
        } else {
            match advance_spec(src, pos, 8) {
                Err(e) => Err(e),
                Ok(p) => Ok((p, (limit - 8) as u32)),
            }
        },
        WireType::LengthDelimited => match read_length_spec(src, pos, limit) {
            Err(e) => Err(e),
            Ok((length, p, l)) => match advance_spec(src, p, length as int) {
                Err(e) => Err(e),
                Ok(p2) => Ok((p2, l)),
            },
        },
        WireType::ThirtyTwoBit => if 4 > limit {
            Err(fail(BUFFER_OVERFLOW))
        } else {
            match advance_spec(src, pos, 4) {
                Err(e) => Err(e),
                Ok(p) => Ok((p, (limit - 4) as u32)),
            }
        },
        WireType::StartGroup | WireType::EndGroup => Ok((pos, limit)),
    }
}

fn read_varint(limit: u32, src: &[u8], pos: usize, error: &'static str) -> (r: Result<
    (u64, usize, u32),
    DecodeError,
>)
    requires
        pos <= src@.len(),
    ensures
        match read_varint_spec(src@, pos as int, limit, error) {
            Ok((v, p, l)) => r matches Ok((v2, p2, l2)) && v2 == v && p2 == p && l2 == l && pos <= p <= src@.len()
                && l < limit,
            Err(e) => is_error(r, e),
        },
{
    match read_varint_at(src, pos) {
        None => Err(DecodeError::new(error)),
        Some((varint, p)) => {
            let bytes_read = varint_length(varint);
            if bytes_read as u64 > limit as u64 {
                return Err(DecodeError::new(BUFFER_OVERFLOW));
            }
            Ok((varint, p, limit - bytes_read as u32))
        },
    }
}

fn wire_type_from(n: u64) -> (w: WireType)
    requires
        n < 6,
    ensures
        w == wire_type_of(n as int),
{
    if n == 0 {
        WireType::Varint
    } else if n == 1 {
        WireType::SixtyFourBit
    } else if n == 2 {
        WireType::LengthDelimited
    } else if n == 3 {
        WireType::StartGroup
    } else if n == 4 {
        WireType::EndGroup
    } else {
        WireType::ThirtyTwoBit
    }
}

/// Decodes a tag at `pos`: the field number and wire type.
fn decode_tag(limit: u32, src: &[u8], pos: usize) -> (r: Result<
    (u32, WireType, usize, u32),
    DecodeError,
>)
    requires
        pos <= src@.len(),
    ensures
        match decode_tag_spec(src@, pos as int, limit) {
            Ok((n, w, p, l)) => r matches Ok((n2, w2, p2, l2)) && n2 == n && w2 == w && p2 == p && l2 == l && pos <= p <= src@.len()
                && l < limit,
            Err(e) => is_error(r, e),
        },
{
    let (tag, p, l) = read_varint(limit, src, pos, INVALID_TAG_VARINT)?;
    proof {
        lemma_varint_bytes(tag as nat);
    }
    if tag / 8 > u32::MAX as u64 {
        return Err(DecodeError::new(INVALID_FIELD_NUMBER));
    }
    let field_number = (tag / 8) as u32;
    let wire_type = tag % 8;
    if wire_type >= 6 {
        return Err(DecodeError::new(INVALID_WIRE_TYPE).with_field(field_number));
    }
    Ok((field_number, wire_type_from(wire_type), p, l))
}

/// Reads a length at `pos`, checking that the limit covers it.
fn read_length_check_overflow(limit: u32, src: &[u8], pos: usize) -> (r: Result<
    (u32, usize, u32),
    DecodeError,
>)
    requires
        pos <= src@.len(),
    ensures
        match read_length_spec(src@, pos as int, limit) {
            Ok((n, p, l)) => r matches Ok((n2, p2, l2)) && n2 == n && p2 == p && l2 == l && pos <= p <= src@.len()
                && l + n < limit,
            Err(e) => is_error(r, e),
        },
{
    let (length, p, l) = read_varint(limit, src, pos, INVALID_LENGTH_VARINT)?;
    proof {
        lemma_varint_bytes(length as nat);
    }
    if length > u32::MAX as u64 {
        return Err(DecodeError::new(INVALID_LENGTH_VARINT));
    }
    let length = length as u32;
    if length > l {
        return Err(DecodeError::new(BUFFER_OVERFLOW));
    }
    Ok((length, p, l - length))
}

fn advance(src: &[u8], pos: usize, n: usize) -> (r: Result<usize, DecodeError>)
    requires
        pos <= src@.len(),
    ensures
        match advance_spec(src@, pos as int, n as int) {
            Ok(p) => r matches Ok(p2) && p2 == p && pos <= p <= src@.len(),
            Err(e) => is_error(r, e),
        },
{
    if n <= src.len() - pos {
        Ok(pos + n)
    } else {
        Err(DecodeError::new(BUFFER_UNDERFLOW))
    }
}

/// Uses the wire type to skip the payload of an unknown field.
fn skip(wire_type: WireType, limit: u32, src: &[u8], pos: usize) -> (r: Result<
    (usize, u32),
    DecodeError,
>)
    requires
        pos <= src@.len(),
    ensures
        match skip_spec(wire_type, src@, pos as int, limit) {
            Ok((p, l)) => r matches Ok((p2, l2)) && p2 == p && l2 == l && pos <= p <= src@.len() && l <= limit,
            Err(e) => is_error(r, e),
        },
{
    match wire_type {
        WireType::Varint => {
            match read_varint(limit, src, pos, INVALID_VARINT) {
                Ok((_, p, l)) => Ok((p, l)),
                Err(e) => Err(e),
            }
        },
        WireType::SixtyFourBit => {
            if 8 > limit {
                return Err(DecodeError::new(BUFFER_OVERFLOW));
            }
            let p = advance(src, pos, 8)?;
            Ok((p, limit - 8))
        },
        WireType::LengthDelimited => {
            let (length, p, l) = read_length_check_overflow(limit, src, pos)?;
            let p2 = advance(src, p, length as usize)?;
            Ok((p2, l))
        },
        WireType::ThirtyTwoBit => {
            if 4 > limit {
                return Err(DecodeError::new(BUFFER_OVERFLOW));
            }
            let p = advance(src, pos, 4)?;
            Ok((p, limit - 4))
        },
        WireType::StartGroup | WireType::EndGroup => Ok((pos, limit)),
    }
}

// ---------------------------------------------------------------------------------------
// Scalars.

/// The wire type a scalar type is written with.
pub open spec fn scalar_wire_type(t: ScalarType) -> WireType {
    match t {
        ScalarType::Bytes | ScalarType::StringUtf8 | ScalarType::StringPermissive => WireType::LengthDelimited,
        ScalarType::Sfixed32 | ScalarType::Fixed32 | ScalarType::Float => WireType::ThirtyTwoBit,
        ScalarType::Sfixed64 | ScalarType::Fixed64 | ScalarType::Double => WireType::SixtyFourBit,
        _ => WireType::Varint,
    }
}

/// The error for a scalar of type `t` met with another wire type.
pub open spec fn scalar_wire_error(t: ScalarType) -> &'static str {
    match scalar_wire_type(t) {
        WireType::LengthDelimited => WIRETYPE_NON_LENGTH_DELIMITED,
        WireType::ThirtyTwoBit => WIRETYPE_NON_32BIT,
        WireType::SixtyFourBit => WIRETYPE_NON_64BIT,
        _ => WIRETYPE_NON_VARINT,
    }
}

/// Bytes and strings, which are never packed.
pub open spec fn is_stringy(t: ScalarType) -> bool {
    scalar_wire_type(t) == WireType::LengthDelimited
}

/// The `n` bytes at `pos`, if the buffer holds them.
pub open spec fn bytes_at(src: Seq<u8>, pos: int, n: int) -> Option<Seq<u8>> {
    if pos + n <= src.len() {
        Some(src.subrange(pos, pos + n))
    } else {
        None
    }
}

/// Bytes as a list of `u8` values.
pub open spec fn byte_values(b: Seq<u8>) -> Seq<Value> {
    Seq::new(b.len(), |i: int| Value::U8(b[i]))
}

/// Reads a length-delimited payload: its bytes, the position after it and the limit left.
pub open spec fn payload_spec(src: Seq<u8>, pos: int, limit: u32) -> Result<
    (Seq<u8>, int, u32),
    DecodeErrorV,
> {
    match read_length_spec(src, pos, limit) {
        Err(e) => Err(e),
        Ok((n, p, l)) => match bytes_at(src, p, n as int) {
            None => Err(fail(BUFFER_UNDERFLOW)),
            Some(b) => Ok((b, p + n, l)),
        },
    }
}

/// Reads `n` fixed bytes, charging them to the limit.
pub open spec fn fixed_spec(src: Seq<u8>, pos: int, limit: u32, n: u32) -> Result<
    (Seq<u8>, int, u32),
    DecodeErrorV,
> {
    if limit >= n {
        match bytes_at(src, pos, n as int) {
            None => Err(fail(BUFFER_UNDERFLOW)),
            Some(b) => Ok((b, pos + n, (limit - n) as u32)),
        }
    } else {
        Err(fail(BUFFER_UNDERFLOW))
    }
}

/// Reads a varint and checks that it fits in 32 bits.
pub open spec fn varint32_spec(src: Seq<u8>, pos: int, limit: u32, max: int) -> Result<
    (u64, int, u32),
    DecodeErrorV,
> {
    match read_varint_spec(src, pos, limit, INVALID_VARINT) {
        Err(e) => Err(e),
        Ok((v, p, l)) => if v > max {
            Err(fail(OVERFLOW_32BIT))
        } else {
            Ok((v, p, l))
        },
    }
}

/// Decodes one scalar of type `t`: its value, the position after it and the limit left.
pub open spec fn scalar_item_spec(t: ScalarType, src: Seq<u8>, pos: int, limit: u32) -> Result<
    (Value, int, u32),
    DecodeErrorV,
> {
    match t {
        ScalarType::Bytes => match payload_spec(src, pos, limit) {
            Err(e) => Err(e),
            Ok((b, p, l)) => Ok((Value::List(byte_values(b)), p, l)),
        },
        ScalarType::StringUtf8 => match payload_spec(src, pos, limit) {
            Err(e) => Err(e),
            Ok((b, p, l)) => if valid_utf8(b) {
                Ok((Value::String(b), p, l))
            } else {
                Err(fail(INVALID_UTF8))
            },
        },
        ScalarType::StringPermissive => match payload_spec(src, pos, limit) {
            Err(e) => Err(e),
            Ok((b, p, l)) => Ok((Value::String(b), p, l)),
        },
        ScalarType::Bool => if limit >= 1 {
            match bytes_at(src, pos, 1) {
                None => Err(fail(BUFFER_UNDERFLOW)),
                Some(b) => if b[0] <= 1 {
                    Ok((Value::Bool(b[0] != 0), pos + 1, (limit - 1) as u32))
                } else {
                    Err(fail(INVALID_BOOL))
                },
            }
        } else {
            Err(fail(BUFFER_OVERFLOW))
        },
        ScalarType::Int32 => match varint32_spec(src, pos, limit, i32::MAX as int) {
            Err(e) => Err(e),
            Ok((v, p, l)) => Ok((Value::S32(v as i32), p, l)),
        },
        ScalarType::Sint32 => match varint32_spec(src, pos, limit, u32::MAX as int) {
            Err(e) => Err(e),
            Ok((v, p, l)) => Ok((Value::S32(zigzag_decode(v as int) as i32), p, l)),
        },
        ScalarType::Uint32 => match varint32_spec(src, pos, limit, u32::MAX as int) {
            Err(e) => Err(e),
            Ok((v, p, l)) => Ok((Value::U32(v as u32), p, l)),
        },
        ScalarType::Int64 => match read_varint_spec(src, pos, limit, INVALID_VARINT) {
            Err(e) => Err(e),
            Ok((v, p, l)) => Ok((Value::S64(v as i64), p, l)),
        },
        ScalarType::Sint64 => match read_varint_spec(src, pos, limit, INVALID_VARINT) {
            Err(e) => Err(e),
            Ok((v, p, l)) => Ok((Value::S64(sint64_value(v) as i64), p, l)),
        },
        ScalarType::Uint64 => match read_varint_spec(src, pos, limit, INVALID_VARINT) {
            Err(e) => Err(e),
            Ok((v, p, l)) => Ok((Value::U64(v), p, l)),
        },
        ScalarType::Sfixed32 => match fixed_spec(src, pos, limit, 4) {
            Err(e) => Err(e),
            Ok((b, p, l)) => Ok((Value::S32(spec_u32_from_le_bytes(b) as i32), p, l)),
        },
        ScalarType::Fixed32 => match fixed_spec(src, pos, limit, 4) {
            Err(e) => Err(e),
            Ok((b, p, l)) => Ok((Value::U32(spec_u32_from_le_bytes(b)), p, l)),
        },
        ScalarType::Float => match fixed_spec(src, pos, limit, 4) {
            Err(e) => Err(e),
            Ok((b, p, l)) => Ok((Value::Float32(spec_u32_from_le_bytes(b)), p, l)),
        },
        ScalarType::Sfixed64 => match fixed_spec(src, pos, limit, 8) {
            Err(e) => Err(e),
            Ok((b, p, l)) => Ok((Value::S64(spec_u64_from_le_bytes(b) as i64), p, l)),
        },
        ScalarType::Fixed64 => match fixed_spec(src, pos, limit, 8) {
            Err(e) => Err(e),
            Ok((b, p, l)) => Ok((Value::U64(spec_u64_from_le_bytes(b)), p, l)),
        },
        ScalarType::Double => match fixed_spec(src, pos, limit, 8) {
            Err(e) => Err(e),
            Ok((b, p, l)) => Ok((Value::Float64(spec_u64_from_le_bytes(b)), p, l)),
        },
    }
}

/// Whether an executable item result agrees with its model.
pub open spec fn item_agrees(r: Result<(Val, usize, u32), DecodeError>, s: Result<(Value, int, u32), DecodeErrorV>) -> bool {
    match s {
        Ok((v, p, l)) => r matches Ok((x, p2, l2)) && x@ == v && p2 == p && l2 == l,
        Err(e) => is_error(r, e),
    }
}

/// Whether a result read from `pos` under `limit` stays within the buffer and the limit.
pub open spec fn item_bounded(r: Result<(Val, usize, u32), DecodeError>, src: Seq<u8>, pos: int, limit: u32) -> bool {
    r matches Ok((_, p, l)) ==> pos <= p <= src.len() && l < limit
}

/// Whether `bytes` is valid UTF-8 (`std::str::from_utf8` succeeds on it).
#[verifier::external_body]
fn utf8_valid(bytes: &[u8]) -> (b: bool)
    ensures
        b == valid_utf8(bytes@),
{
    std::str::from_utf8(bytes).is_ok()
}

/// The `n` bytes at `pos`, copied.
fn take_bytes(src: &[u8], pos: usize, n: usize) -> (r: Result<(Vec<u8>, usize), DecodeError>)
    requires
        pos <= src@.len(),
    ensures
        match bytes_at(src@, pos as int, n as int) {
            Some(b) => r matches Ok((v, p)) && v@ == b && p == pos + n,
            None => is_error(r, fail(BUFFER_UNDERFLOW)),
        },
{
    if n > src.len() - pos {
        return Err(DecodeError::new(BUFFER_UNDERFLOW));
    }
    let mut out: Vec<u8> = Vec::new();
    let mut i: usize = 0;
    while i < n
        invariant
            i <= n,
            pos + n <= src@.len() <= usize::MAX,
            out@ == src@.subrange(pos as int, pos + i),
        decreases n - i,
    {
        out.push(src[pos + i]);
        i = i + 1;
        assert(out@ =~= src@.subrange(pos as int, pos + i));
    }
    Ok((out, pos + n))
}

fn read_payload(limit: u32, src: &[u8], pos: usize) -> (r: Result<(Vec<u8>, usize, u32), DecodeError>)
    requires
        pos <= src@.len(),
    ensures
        match payload_spec(src@, pos as int, limit) {
            Ok((b, p, l)) => r matches Ok((v, p2, l2)) && v@ == b && p2 == p && l2 == l
                && pos <= p <= src@.len() && l < limit,
            Err(e) => is_error(r, e),
        },
{
    let (length, p, l) = read_length_check_overflow(limit, src, pos)?;
    let (bytes, p2) = take_bytes(src, p, length as usize)?;
    Ok((bytes, p2, l))
}

fn read_fixed(limit: u32, src: &[u8], pos: usize, n: u32) -> (r: Result<(Vec<u8>, usize, u32), DecodeError>)
    requires
        pos <= src@.len(),
        n == 4 || n == 8,
    ensures
        match fixed_spec(src@, pos as int, limit, n) {
            Ok((b, p, l)) => r matches Ok((v, p2, l2)) && v@ == b && p2 == p && l2 == l
                && pos <= p <= src@.len() && l + n == limit && b.len() == n,
            Err(e) => is_error(r, e),
        },
{
    if limit >= n {
        let (bytes, p) = take_bytes(src, pos, n as usize)?;
        Ok((bytes, p, limit - n))
    } else {
        Err(DecodeError::new(BUFFER_UNDERFLOW))
    }
}

fn read_varint32(limit: u32, src: &[u8], pos: usize, max: u64) -> (r: Result<(u64, usize, u32), DecodeError>)
    requires
        pos <= src@.len(),
    ensures
        match varint32_spec(src@, pos as int, limit, max as int) {
            Ok((v, p, l)) => r matches Ok((v2, p2, l2)) && v2 == v && p2 == p && l2 == l
                && pos <= p <= src@.len() && l < limit && v <= max,
            Err(e) => is_error(r, e),
        },
{
    let (v, p, l) = read_varint(limit, src, pos, INVALID_VARINT)?;
    if v > max {
        return Err(DecodeError::new(OVERFLOW_32BIT));
    }
    Ok((v, p, l))
}

fn bytes_decode_inner(limit: u32, src: &[u8], pos: usize) -> (r: Result<(Val, usize, u32), DecodeError>)
    requires
        pos <= src@.len(),
    ensures
        item_agrees(r, scalar_item_spec(ScalarType::Bytes, src@, pos as int, limit)),
        item_bounded(r, src@, pos as int, limit),
{
    let (bytes, p, l) = read_payload(limit, src, pos)?;
    let mut items: Vec<Val> = Vec::new();
    for i in 0..bytes.len()
        invariant
            items@.len() == i,
            forall|j: int| 0 <= j < i ==> (#[trigger] items@[j])@ == Value::U8(bytes@[j]),
    {
        items.push(Val::U8(bytes[i]));
    }
    proof {
        crate::runtime::value::lemma_list_view(items);
        assert(list_view(items@) =~= byte_values(bytes@));
    }
    Ok((Val::List(items), p, l))
}

fn string_utf8_decode_inner(limit: u32, src: &[u8], pos: usize) -> (r: Result<(Val, usize, u32), DecodeError>)
    requires
        pos <= src@.len(),
    ensures
        item_agrees(r, scalar_item_spec(ScalarType::StringUtf8, src@, pos as int, limit)),
        item_bounded(r, src@, pos as int, limit),
{
    let (bytes, p, l) = read_payload(limit, src, pos)?;
    if !utf8_valid(bytes.as_slice()) {
        return Err(DecodeError::new(INVALID_UTF8));
    }
    Ok((Val::String(bytes), p, l))
}

fn string_permissive_decode_inner(limit: u32, src: &[u8], pos: usize) -> (r: Result<(Val, usize, u32), DecodeError>)
    requires
        pos <= src@.len(),
    ensures
        item_agrees(r, scalar_item_spec(ScalarType::StringPermissive, src@, pos as int, limit)),
        item_bounded(r, src@, pos as int, limit),
{
    let (bytes, p, l) = read_payload(limit, src, pos)?;
    Ok((Val::String(bytes), p, l))
}

fn bool_decode_inner(limit: u32, src: &[u8], pos: usize) -> (r: Result<(Val, usize, u32), DecodeError>)
    requires
        pos <= src@.len(),
    ensures
        item_agrees(r, scalar_item_spec(ScalarType::Bool, src@, pos as int, limit)),
        item_bounded(r, src@, pos as int, limit),
{
    if limit >= 1 {
        if pos >= src.len() {
            return Err(DecodeError::new(BUFFER_UNDERFLOW));
        }
        let byte = src[pos];
        if byte <= 1 {
            Ok((Val::Bool(byte != 0), pos + 1, limit - 1))
        } else {
            Err(DecodeError::new(INVALID_BOOL))
        }
    } else {
        Err(DecodeError::new(BUFFER_OVERFLOW))
    }
}

fn int32_decode_inner(limit: u32, src: &[u8], pos: usize) -> (r: Result<(Val, usize, u32), DecodeError>)
    requires
        pos <= src@.len(),
    ensures
        item_agrees(r, scalar_item_spec(ScalarType::Int32, src@, pos as int, limit)),
        item_bounded(r, src@, pos as int, limit),
{
    let (v, p, l) = read_varint32(limit, src, pos, i32::MAX as u64)?;
    Ok((Val::S32(v as i32), p, l))
}

fn sint32_decode_inner(limit: u32, src: &[u8], pos: usize) -> (r: Result<(Val, usize, u32), DecodeError>)
    requires
        pos <= src@.len(),
    ensures
        item_agrees(r, scalar_item_spec(ScalarType::Sint32, src@, pos as int, limit)),
        item_bounded(r, src@, pos as int, limit),
{
    let (v, p, l) = read_varint32(limit, src, pos, u32::MAX as u64)?;
    Ok((Val::S32(sint32_from(v as u32)), p, l))
}

fn uint32_decode_inner(limit: u32, src: &[u8], pos: usize) -> (r: Result<(Val, usize, u32), DecodeError>)
    requires
        pos <= src@.len(),
    ensures
        item_agrees(r, scalar_item_spec(ScalarType::Uint32, src@, pos as int, limit)),
        item_bounded(r, src@, pos as int, limit),
{
    let (v, p, l) = read_varint32(limit, src, pos, u32::MAX as u64)?;
    Ok((Val::U32(v as u32), p, l))
}

fn int64_decode_inner(limit: u32, src: &[u8], pos: usize) -> (r: Result<(Val, usize, u32), DecodeError>)
    requires
        pos <= src@.len(),
    ensures
        item_agrees(r, scalar_item_spec(ScalarType::Int64, src@, pos as int, limit)),
        item_bounded(r, src@, pos as int, limit),
{
    let (v, p, l) = read_varint(limit, src, pos, INVALID_VARINT)?;
    Ok((Val::S64(v as i64), p, l))
}

fn sint64_decode_inner(limit: u32, src: &[u8], pos: usize) -> (r: Result<(Val, usize, u32), DecodeError>)
    requires
        pos <= src@.len(),
    ensures
        item_agrees(r, scalar_item_spec(ScalarType::Sint64, src@, pos as int, limit)),
        item_bounded(r, src@, pos as int, limit),
{
    let (v, p, l) = read_varint(limit, src, pos, INVALID_VARINT)?;
    Ok((Val::S64(sint64_from(v)), p, l))
}

fn uint64_decode_inner(limit: u32, src: &[u8], pos: usize) -> (r: Result<(Val, usize, u32), DecodeError>)
    requires
        pos <= src@.len(),
    ensures
        item_agrees(r, scalar_item_spec(ScalarType::Uint64, src@, pos as int, limit)),
        item_bounded(r, src@, pos as int, limit),
{
    let (v, p, l) = read_varint(limit, src, pos, INVALID_VARINT)?;
    Ok((Val::U64(v), p, l))
}

fn sfixed32_decode_inner(limit: u32, src: &[u8], pos: usize) -> (r: Result<(Val, usize, u32), DecodeError>)
    requires
        pos <= src@.len(),
    ensures
        item_agrees(r, scalar_item_spec(ScalarType::Sfixed32, src@, pos as int, limit)),
        item_bounded(r, src@, pos as int, limit),
{
    let (b, p, l) = read_fixed(limit, src, pos, 4)?;
    Ok((Val::S32(u32_from_le_bytes(b.as_slice()) as i32), p, l))
}

fn fixed32_decode_inner(limit: u32, src: &[u8], pos: usize) -> (r: Result<(Val, usize, u32), DecodeError>)
    requires
        pos <= src@.len(),
    ensures
        item_agrees(r, scalar_item_spec(ScalarType::Fixed32, src@, pos as int, limit)),
        item_bounded(r, src@, pos as int, limit),
{
    let (b, p, l) = read_fixed(limit, src, pos, 4)?;
    Ok((Val::U32(u32_from_le_bytes(b.as_slice())), p, l))
}

fn float_decode_inner(limit: u32, src: &[u8], pos: usize) -> (r: Result<(Val, usize, u32), DecodeError>)
    requires
        pos <= src@.len(),
    ensures
        item_agrees(r, scalar_item_spec(ScalarType::Float, src@, pos as int, limit)),
        item_bounded(r, src@, pos as int, limit),
{
    let (b, p, l) = read_fixed(limit, src, pos, 4)?;
    Ok((Val::Float32(u32_from_le_bytes(b.as_slice())), p, l))
}

fn sfixed64_decode_inner(limit: u32, src: &[u8], pos: usize) -> (r: Result<(Val, usize, u32), DecodeError>)
    requires
        pos <= src@.len(),
    ensures
        item_agrees(r, scalar_item_spec(ScalarType::Sfixed64, src@, pos as int, limit)),
        item_bounded(r, src@, pos as int, limit),
{
    let (b, p, l) = read_fixed(limit, src, pos, 8)?;
    Ok((Val::S64(u64_from_le_bytes(b.as_slice()) as i64), p, l))
}

fn fixed64_decode_inner(limit: u32, src: &[u8], pos: usize) -> (r: Result<(Val, usize, u32), DecodeError>)
    requires
        pos <= src@.len(),
    ensures
        item_agrees(r, scalar_item_spec(ScalarType::Fixed64, src@, pos as int, limit)),
        item_bounded(r, src@, pos as int, limit),
{
    let (b, p, l) = read_fixed(limit, src, pos, 8)?;
    Ok((Val::U64(u64_from_le_bytes(b.as_slice())), p, l))
}

fn double_decode_inner(limit: u32, src: &[u8], pos: usize) -> (r: Result<(Val, usize, u32), DecodeError>)
    requires
        pos <= src@.len(),
    ensures
        item_agrees(r, scalar_item_spec(ScalarType::Double, src@, pos as int, limit)),
        item_bounded(r, src@, pos as int, limit),
{
    let (b, p, l) = read_fixed(limit, src, pos, 8)?;
    Ok((Val::Float64(u64_from_le_bytes(b.as_slice())), p, l))
}

/// Decodes one scalar of type `t`.
fn scalar_decode_inner(t: ScalarType, limit: u32, src: &[u8], pos: usize) -> (r: Result<(Val, usize, u32), DecodeError>)
    requires
        pos <= src@.len(),
    ensures
        item_agrees(r, scalar_item_spec(t, src@, pos as int, limit)),
        item_bounded(r, src@, pos as int, limit),
{
    match t {
        ScalarType::Bytes => bytes_decode_inner(limit, src, pos),
        ScalarType::StringUtf8 => string_utf8_decode_inner(limit, src, pos),
        ScalarType::StringPermissive => string_permissive_decode_inner(limit, src, pos),
        ScalarType::Bool => bool_decode_inner(limit, src, pos),
        ScalarType::Int32 => int32_decode_inner(limit, src, pos),
        ScalarType::Sint32 => sint32_decode_inner(limit, src, pos),
        ScalarType::Sfixed32 => sfixed32_decode_inner(limit, src, pos),
        ScalarType::Uint32 => uint32_decode_inner(limit, src, pos),
        ScalarType::Fixed32 => fixed32_decode_inner(limit, src, pos),
        ScalarType::Int64 => int64_decode_inner(limit, src, pos),
        ScalarType::Sint64 => sint64_decode_inner(limit, src, pos),
        ScalarType::Sfixed64 => sfixed64_decode_inner(limit, src, pos),
        ScalarType::Uint64 => uint64_decode_inner(limit, src, pos),
        ScalarType::Fixed64 => fixed64_decode_inner(limit, src, pos),
        ScalarType::Float => float_decode_inner(limit, src, pos),
        ScalarType::Double => double_decode_inner(limit, src, pos),
    }
}

// ---------------------------------------------------------------------------------------
// Mergers.

/// How an enumeration field is merged.
#[derive(Clone, Copy, Debug, PartialEq, Eq, Structural)]
pub enum EnumMerge {
    Implicit,
    Explicit,
    Repeated,
}

/// How a message field is merged: as the contents of a record,
/// as an optional record, or as an item of a list of records.
#[derive(Clone, Copy, Debug, PartialEq, Eq, Structural)]
pub enum MessageMerge {
    Inner,
    Outer,
    Repeated,
}

/// Decodes a value for one Protobuf field and merges it into the value built so far.
#[derive(Debug)]
pub enum Merger {
    /// A scalar field.
    Scalar(ScalarCoding),
    /// An enumeration: its variants by number, later entries winning.
    Enum(EnumMerge, Vec<(u32, String)>),
    /// A message: for each field number, the index of the record field it fills and its
    /// merger (later entries winning); and the record's default fields.
    Message(MessageMerge, Vec<(u32, u32, Merger)>, Vec<(String, Val)>),
    /// A variant of a oneof: its name and the merger of its payload.
    Oneof(String, Box<Merger>),
}

/// The model of a merger.
pub enum MergerV {
    Scalar(ScalarCoding),
    Enum(EnumMerge, Seq<(u32, Seq<char>)>),
    Message(MessageMerge, Seq<(u32, u32, MergerV)>, Seq<(Seq<char>, Value)>),
    Oneof(Seq<char>, Box<MergerV>),
}

/// The model of a merger.
pub open spec fn merger_model(m: Merger) -> MergerV
    decreases m,
{
    match m {
        Merger::Scalar(c) => MergerV::Scalar(c),
        Merger::Enum(k, vars) => MergerV::Enum(k, variants_view(vars@)),
        Merger::Message(k, subs, defaults) => MergerV::Message(
            k,
            Seq::new(
                subs@.len(),
                |i: int|
                    if 0 <= i < subs@.len() {
                        (subs@[i].0, subs@[i].1, merger_model(subs@[i].2))
                    } else {
                        (0u32, 0u32, MergerV::Scalar(ScalarCoding { ty: ScalarType::Bool, presence: Presence::Implicit }))
                    },
            ),
            record_view(defaults@),
        ),
        Merger::Oneof(name, inner) => MergerV::Oneof(name@, Box::new(merger_model(*inner))),
    }
}

impl View for Merger {
    type V = MergerV;

    open spec fn view(&self) -> MergerV {
        merger_model(*self)
    }
}

/// The models of a list of enumeration variants.
pub open spec fn variants_view(vars: Seq<(u32, String)>) -> Seq<(u32, Seq<char>)> {
    Seq::new(vars.len(), |i: int| (vars[i].0, vars[i].1@))
}

/// The name of the variant numbered `n`: its last entry.
pub open spec fn variant_name(vars: Seq<(u32, Seq<char>)>, n: u32) -> Option<Seq<char>>
    decreases vars.len(),
{
    if vars.len() == 0 {
        None
    } else if vars.last().0 == n {
        Some(vars.last().1)
    } else {
        variant_name(vars.drop_last(), n)
    }
}

/// The index of the last subfield entry for field number `n`.
pub open spec fn find_subfield(subs: Seq<(u32, u32, MergerV)>, n: u32) -> Option<int>
    decreases subs.len(),
{
    if subs.len() == 0 {
        None
    } else if subs.last().0 == n {
        Some(subs.len() - 1)
    } else {
        find_subfield(subs.drop_last(), n)
    }
}

/// What `find_subfield` finds is an entry for that number.
pub proof fn lemma_find_subfield(subs: Seq<(u32, u32, MergerV)>, n: u32)
    ensures
        find_subfield(subs, n) matches Some(j) ==> 0 <= j < subs.len() && subs[j].0 == n,
    decreases subs.len(),
{
    if subs.len() > 0 && subs.last().0 != n {
        lemma_find_subfield(subs.drop_last(), n);
    }
}

/// Decodes one enumeration value: the variant named by its number, or else the variant numbered zero.
pub open spec fn enum_item_spec(vars: Seq<(u32, Seq<char>)>, src: Seq<u8>, pos: int, limit: u32) -> Result<
    (Value, int, u32),
    DecodeErrorV,
> {
    match varint32_spec(src, pos, limit, u32::MAX as int) {
        Err(e) => Err(e),
        Ok((v, p, l)) => match variant_name(vars, v as u32) {
            Some(name) => Ok((Value::Enum(name), p, l)),
            None => match variant_name(vars, 0) {
                Some(name) => Ok((Value::Enum(name), p, l)),
                None => Err(fail(ENUM_NO_DEFAULT)),
            },
        },
    }
}

/// Decodes one item of a repeated scalar or enumeration field.
#[verifier::opaque]
pub open spec fn item_spec(m: MergerV, src: Seq<u8>, pos: int, limit: u32) -> Result<
    (Value, int, u32),
    DecodeErrorV,
> {
    match m {
        MergerV::Scalar(c) => scalar_item_spec(c.ty, src, pos, limit),
        MergerV::Enum(_, vars) => enum_item_spec(vars, src, pos, limit),
        _ => Err(fail(REPEATED_NON_LIST)),
    }
}

/// Decodes the items of a packed field until its length is used up, appending them to `items`.
pub open spec fn packed_spec(m: MergerV, src: Seq<u8>, pos: int, length: u32, items: Seq<Value>) -> Result<
    (Seq<Value>, int),
    DecodeErrorV,
>
    decreases length,
{
    if length == 0 {
        Ok((items, pos))
    } else {
        match item_spec(m, src, pos, length) {
            Err(e) => Err(e.at_index(items.len() as int)),
            Ok((v, p, l)) => if l < length {
                packed_spec(m, src, p, l, items.push(v))
            } else {
                // Never taken: every item is charged at least one byte.
                Err(fail(BUFFER_OVERFLOW))
            },
        }
    }
}

/// Merges one occurrence of a repeated field into the list built so far:
/// a packed run of items, or a single item.
pub open spec fn repeated_spec(
    m: MergerV,
    packable: bool,
    item_wire: WireType,
    wire_error: &'static str,
    wire_type: WireType,
    src: Seq<u8>,
    pos: int,
    limit: u32,
    dst: Value,
) -> Result<(Value, int, u32), DecodeErrorV> {
    match dst {
        Value::List(items) => if packable && wire_type == WireType::LengthDelimited {
            match read_length_spec(src, pos, limit) {
                Err(e) => Err(e),
                Ok((n, p, l)) => match packed_spec(m, src, p, n, items) {
                    Err(e) => Err(e),
                    Ok((items2, p2)) => Ok((Value::List(items2), p2, l)),
                },
            }
        } else if wire_type == item_wire {
            match item_spec(m, src, pos, limit) {
                Err(e) => Err(e.at_index(items.len() as int)),
                Ok((v, p, l)) => Ok((Value::List(items.push(v)), p, l)),
            }
        } else {
            Err(fail(wire_error))
        },
        _ => Err(fail(REPEATED_NON_LIST)),
    }
}

/// Merges a singular field: the item itself, or the item as a present option.
pub open spec fn singular_spec(
    item: Result<(Value, int, u32), DecodeErrorV>,
    explicit: bool,
    item_wire: WireType,
    wire_error: &'static str,
    wire_type: WireType,
) -> Result<(Value, int, u32), DecodeErrorV> {
    if wire_type == item_wire {
        match item {
            Err(e) => Err(e),
            Ok((v, p, l)) => if explicit {
                Ok((Value::Option(Some(Box::new(v))), p, l))
            } else {
                Ok((v, p, l))
            },
        }
    } else {
        Err(fail(wire_error))
    }
}

/// Merges a scalar field.
pub open spec fn scalar_merge_spec(c: ScalarCoding, wire_type: WireType, src: Seq<u8>, pos: int, limit: u32, dst: Value) -> Result<
    (Value, int, u32),
    DecodeErrorV,
> {
    match c.presence {
        Presence::Implicit => singular_spec(
            scalar_item_spec(c.ty, src, pos, limit),
            false,
            scalar_wire_type(c.ty),
            scalar_wire_error(c.ty),
            wire_type,
        ),
        Presence::Explicit => singular_spec(
            scalar_item_spec(c.ty, src, pos, limit),
            true,
            scalar_wire_type(c.ty),
            scalar_wire_error(c.ty),
            wire_type,
        ),
        _ => repeated_spec(
            MergerV::Scalar(c),
            !is_stringy(c.ty),
            scalar_wire_type(c.ty),
            scalar_wire_error(c.ty),
            wire_type,
            src,
            pos,
            limit,
            dst,
        ),
    }
}

/// Merges an enumeration field.
pub open spec fn enum_merge_spec(
    k: EnumMerge,
    vars: Seq<(u32, Seq<char>)>,
    wire_type: WireType,
    src: Seq<u8>,
    pos: int,
    limit: u32,
    dst: Value,
) -> Result<(Value, int, u32), DecodeErrorV> {
    match k {
        EnumMerge::Implicit => singular_spec(
            enum_item_spec(vars, src, pos, limit),
            false,
            WireType::Varint,
            WIRETYPE_NON_VARINT,
            wire_type,
        ),
        EnumMerge::Explicit => singular_spec(
            enum_item_spec(vars, src, pos, limit),
            true,
            WireType::Varint,
            WIRETYPE_NON_VARINT,
            wire_type,
        ),
        EnumMerge::Repeated => repeated_spec(
            MergerV::Enum(k, vars),
            true,
            WireType::Varint,
            WIRETYPE_NON_VARINT,
            wire_type,
            src,
            pos,
            limit,
            dst,
        ),
    }
}

/// Merges a value decoded by `m` into `dst`:
/// the value merged, the position after what was read and the limit left.
pub open spec fn merge_spec(m: MergerV, wire_type: WireType, src: Seq<u8>, pos: int, limit: u32, dst: Value) -> Result<
    (Value, int, u32),
    DecodeErrorV,
>
    decreases limit, m, 3int,
{
    match m {
        MergerV::Scalar(c) => scalar_merge_spec(c, wire_type, src, pos, limit, dst),
        MergerV::Enum(k, vars) => enum_merge_spec(k, vars, wire_type, src, pos, limit, dst),
        MergerV::Message(k, subs, defaults) => match k {
            MessageMerge::Inner => inner_spec(m, src, pos, limit, dst),
            MessageMerge::Outer => if wire_type == WireType::LengthDelimited {
                match read_length_spec(src, pos, limit) {
                    Err(e) => Err(e),
                    Ok((n, p, l)) => if n < limit {
                        match fields_spec(m, src, p, n, defaults) {
                            Err(e) => Err(e),
                            Ok((f, p2, _)) => Ok((Value::Option(Some(Box::new(Value::Record(f)))), p2, l)),
                        }
                    } else {
                        // Never taken: the length's own bytes are charged too.
                        Err(fail(BUFFER_OVERFLOW))
                    },
                }
            } else {
                Err(fail(WIRETYPE_NON_LENGTH_DELIMITED))
            },
            MessageMerge::Repeated => match dst {
                Value::List(items) => if wire_type == WireType::LengthDelimited {
                    match read_length_spec(src, pos, limit) {
                        Err(e) => Err(e.at_index(items.len() as int)),
                        Ok((n, p, l)) => if n < limit {
                            match fields_spec(m, src, p, n, defaults) {
                                Err(e) => Err(e.at_index(items.len() as int)),
                                Ok((f, p2, _)) => Ok((Value::List(items.push(Value::Record(f))), p2, l)),
                            }
                        } else {
                            // Never taken: the length's own bytes are charged too.
                            Err(fail(BUFFER_OVERFLOW))
                        },
                    }
                } else {
                    Err(fail(WIRETYPE_NON_LENGTH_DELIMITED))
                },
                _ => Err(fail(REPEATED_NON_LIST)),
            },
        },
        MergerV::Oneof(name, inner) => match merge_spec(*inner, wire_type, src, pos, limit, Value::Option(None)) {
            Err(e) => Err(e),
            Ok((v, p, l)) => match v {
                Value::Option(o) => Ok((Value::Option(Some(Box::new(Value::Variant(name, o)))), p, l)),
                _ => Err(fail(NON_EXPLICIT_ONEOF_VARIANT)),
            },
        },
    }
}

/// Merges the contents of message `m` into the record `dst`.
pub open spec fn inner_spec(m: MergerV, src: Seq<u8>, pos: int, limit: u32, dst: Value) -> Result<
    (Value, int, u32),
    DecodeErrorV,
>
    decreases limit, m, 2int,
{
    match dst {
        Value::Record(fields) => match fields_spec(m, src, pos, limit, fields) {
            Err(e) => Err(e),
            Ok((f, p, l)) => Ok((Value::Record(f), p, l)),
        },
        _ => Err(fail(MESSAGE_NON_RECORD)),
    }
}

/// Merges one field, numbered `n` and of wire type `wire_type`, of message `m` into the record
/// fields `fields`: into the record field that its number names, or else skipped.
pub open spec fn field_spec(
    m: MergerV,
    n: u32,
    wire_type: WireType,
    src: Seq<u8>,
    pos: int,
    limit: u32,
    fields: Seq<(Seq<char>, Value)>,
) -> Result<(Seq<(Seq<char>, Value)>, int, u32), DecodeErrorV>
    decreases limit, m, 0int,
{
    match m {
        MergerV::Message(_, subs, _) => match find_subfield(subs, n) {
            Some(j) => {
                proof {
                    lemma_find_subfield(subs, n);
                }
                let index = subs[j].1;
                if index < fields.len() {
                    match merge_spec(subs[j].2, wire_type, src, pos, limit, fields[index as int].1) {
                        Err(e) => Err(e.at_field(n)),
                        Ok((v, p, l)) => Ok((fields.update(index as int, (fields[index as int].0, v)), p, l)),
                    }
                } else {
                    Err(fail(FIELD_INDEX_OUT_OF_BOUNDS).at_field(n))
                }
            },
            None => match skip_spec(wire_type, src, pos, limit) {
                Err(e) => Err(e.at_field(n)),
                Ok((p, l)) => Ok((fields, p, l)),
            },
        },
        _ => Err(fail(MESSAGE_NON_RECORD)),
    }
}

/// Merges fields of message `m` into the record fields `fields` until the limit is used up.
pub open spec fn fields_spec(m: MergerV, src: Seq<u8>, pos: int, limit: u32, fields: Seq<(Seq<char>, Value)>) -> Result<
    (Seq<(Seq<char>, Value)>, int, u32),
    DecodeErrorV,
>
    decreases limit, m, 1int,
{
    if limit == 0 {
        Ok((fields, pos, limit))
    } else {
        match decode_tag_spec(src, pos, limit) {
            Err(e) => Err(e),
            Ok((n, wt, p, l)) => if l < limit {
                match field_spec(m, n, wt, src, p, l, fields) {
                    Err(e) => Err(e),
                    Ok((f, p2, l2)) => if l2 < limit {
                        fields_spec(m, src, p2, l2, f)
                    } else {
                        // Never taken: a field is read within its limit.
                        Err(fail(BUFFER_OVERFLOW))
                    },
                }
            } else {
                // Never taken: a tag is charged at least one byte.
                Err(fail(BUFFER_OVERFLOW))
            },
        }
    }
}

/// The models of a list of subfield entries.
pub open spec fn subs_view(subs: Seq<(u32, u32, Merger)>) -> Seq<(u32, u32, MergerV)> {
    Seq::new(subs.len(), |i: int| (subs[i].0, subs[i].1, subs[i].2@))
}

/// A message merger's model, by its parts.
pub proof fn lemma_message_view(k: MessageMerge, subs: Vec<(u32, u32, Merger)>, defaults: Vec<(String, Val)>)
    ensures
        Merger::Message(k, subs, defaults)@ == MergerV::Message(k, subs_view(subs@), record_view(defaults@)),
{
    assert(Merger::Message(k, subs, defaults)@->Message_1 =~= subs_view(subs@));
}

/// Whether an executable merge result agrees with its model, `dst` being the value merged into.
pub open spec fn merge_agrees(r: Result<(usize, u32), DecodeError>, dst: Val, s: Result<(Value, int, u32), DecodeErrorV>) -> bool {
    match s {
        Ok((v, p, l)) => r matches Ok((p2, l2)) && p2 == p && l2 == l && dst@ == v,
        Err(e) => is_error(r, e),
    }
}

/// Whether a merge from `pos` under `limit` stays within the buffer and the limit.
pub open spec fn merge_bounded(r: Result<(usize, u32), DecodeError>, src: Seq<u8>, pos: int, limit: u32) -> bool {
    r matches Ok((p, l)) ==> pos <= p <= src.len() && l <= limit
}

/// The variant named by `n`, looked up from the last entry back.
fn lookup_variant(vars: &Vec<(u32, String)>, n: u32) -> (r: Option<String>)
    ensures
        match variant_name(variants_view(vars@), n) {
            Some(name) => r matches Some(s) && s@ == name,
            None => r is None,
        },
{
    let ghost all = variants_view(vars@);
    let mut i = vars.len();
    assert(all.take(i as int) =~= all);
    while i > 0
        invariant
            i <= vars@.len(),
            all == variants_view(vars@),
            variant_name(all, n) == variant_name(all.take(i as int), n),
        decreases i,
    {
        assert(all.take(i as int).drop_last() =~= all.take(i - 1));
        if vars[i - 1].0 == n {
            return Some(vars[i - 1].1.clone());
        }
        i = i - 1;
    }
    assert(all.take(0).len() == 0);
    None
}

/// Decodes one enumeration value.
fn enum_inner(vars: &Vec<(u32, String)>, limit: u32, src: &[u8], pos: usize) -> (r: Result<(Val, usize, u32), DecodeError>)
    requires
        pos <= src@.len(),
    ensures
        item_agrees(r, enum_item_spec(variants_view(vars@), src@, pos as int, limit)),
        item_bounded(r, src@, pos as int, limit),
{
    let (v, p, l) = read_varint32(limit, src, pos, u32::MAX as u64)?;
    match lookup_variant(vars, v as u32) {
        Some(name) => Ok((Val::Enum(name), p, l)),
        None => match lookup_variant(vars, 0) {
            Some(name) => Ok((Val::Enum(name), p, l)),
            None => Err(DecodeError::new(ENUM_NO_DEFAULT)),
        },
    }
}

/// Decodes one item of a repeated scalar or enumeration field.
fn decode_item(m: &Merger, limit: u32, src: &[u8], pos: usize) -> (r: Result<(Val, usize, u32), DecodeError>)
    requires
        pos <= src@.len(),
        m is Scalar || m is Enum,
    ensures
        item_agrees(r, item_spec(m@, src@, pos as int, limit)),
        item_bounded(r, src@, pos as int, limit),
{
    reveal(item_spec);
    match m {
        Merger::Scalar(c) => scalar_decode_inner(c.ty, limit, src, pos),
        Merger::Enum(_, vars) => enum_inner(vars, limit, src, pos),
        _ => Err(DecodeError::new(REPEATED_NON_LIST)),
    }
}

/// Decodes the items of a packed field, appending them to `items`.
fn packed_merge(m: &Merger, length: u32, src: &[u8], pos: usize, items: &mut Vec<Val>) -> (r: Result<usize, DecodeError>)
    requires
        pos <= src@.len(),
        m is Scalar || m is Enum,
    ensures
        match packed_spec(m@, src@, pos as int, length, list_view(old(items)@)) {
            Ok((vs, p)) => r matches Ok(p2) && p2 == p && list_view(final(items)@) == vs && pos <= p <= src@.len(),
            Err(e) => is_error(r, e),
        },
{
    let mut rest = length;
    let mut p = pos;
    while rest > 0
        invariant
            pos <= p <= src@.len(),
            m is Scalar || m is Enum,
            packed_spec(m@, src@, pos as int, length, list_view(old(items)@))
                == packed_spec(m@, src@, p as int, rest, list_view(items@)),
        decreases rest,
    {
        match decode_item(m, rest, src, p) {
            Ok((v, p2, l2)) => {
                proof {
                    assert(list_view(items@.push(v)) =~= list_view(items@).push(v@));
                }
                items.push(v);
                p = p2;
                rest = l2;
            },
            Err(e) => {
                let i = items.len();
                return Err(e.with_index(i));
            },
        }
    }
    Ok(p)
}

/// Merges one occurrence of a repeated scalar or enumeration field into the list in `dst`.
fn repeated_merge(
    m: &Merger,
    packable: bool,
    item_wire: WireType,
    wire_error: &'static str,
    wire_type: WireType,
    limit: u32,
    src: &[u8],
    pos: usize,
    dst: &mut Val,
) -> (r: Result<(usize, u32), DecodeError>)
    requires
        pos <= src@.len(),
        m is Scalar || m is Enum,
    ensures
        merge_agrees(r, *final(dst), repeated_spec(m@, packable, item_wire, wire_error, wire_type, src@, pos as int, limit, old(dst)@)),
        merge_bounded(r, src@, pos as int, limit),
{
    let mut cur = Val::Bool(false);
    std::mem::swap(&mut cur, dst);
    let mut items = match cur {
        Val::List(items) => items,
        other => {
            *dst = other;
            return Err(DecodeError::new(REPEATED_NON_LIST));
        },
    };
    proof {
        crate::runtime::value::lemma_list_view(items);
    }
    if packable && wire_type == WireType::LengthDelimited {
        let (length, p, l) = read_length_check_overflow(limit, src, pos)?;
        let p2 = packed_merge(m, length, src, p, &mut items)?;
        proof {
            crate::runtime::value::lemma_list_view(items);
        }
        *dst = Val::List(items);
        Ok((p2, l))
    } else if wire_type == item_wire {
        match decode_item(m, limit, src, pos) {
            Ok((v, p, l)) => {
                proof {
                    assert(list_view(items@.push(v)) =~= list_view(items@).push(v@));
                }
                items.push(v);
                proof {
                    crate::runtime::value::lemma_list_view(items);
                }
                *dst = Val::List(items);
                Ok((p, l))
            },
            Err(e) => {
                let i = items.len();
                Err(e.with_index(i))
            },
        }
    } else {
        Err(DecodeError::new(wire_error))
    }
}

fn scalar_wire_type_of(t: ScalarType) -> (w: WireType)
    ensures
        w == scalar_wire_type(t),
{
    match t {
        ScalarType::Bytes | ScalarType::StringUtf8 | ScalarType::StringPermissive => WireType::LengthDelimited,
        ScalarType::Sfixed32 | ScalarType::Fixed32 | ScalarType::Float => WireType::ThirtyTwoBit,
        ScalarType::Sfixed64 | ScalarType::Fixed64 | ScalarType::Double => WireType::SixtyFourBit,
        _ => WireType::Varint,
    }
}

fn scalar_wire_error_of(t: ScalarType) -> (e: &'static str)
    ensures
        e == scalar_wire_error(t),
{
    match scalar_wire_type_of(t) {
        WireType::LengthDelimited => WIRETYPE_NON_LENGTH_DELIMITED,
        WireType::ThirtyTwoBit => WIRETYPE_NON_32BIT,
        WireType::SixtyFourBit => WIRETYPE_NON_64BIT,
        _ => WIRETYPE_NON_VARINT,
    }
}

/// Merges a scalar field.
fn scalar_merge(m: &Merger, wire_type: WireType, limit: u32, src: &[u8], pos: usize, dst: &mut Val) -> (r: Result<(usize, u32), DecodeError>)
    requires
        pos <= src@.len(),
        m is Scalar,
    ensures
        merge_agrees(r, *final(dst), scalar_merge_spec(m->Scalar_0, wire_type, src@, pos as int, limit, old(dst)@)),
        merge_bounded(r, src@, pos as int, limit),
{
    let c = match m {
        Merger::Scalar(c) => *c,
        _ => {
            return Err(DecodeError::new(REPEATED_NON_LIST));
        },
    };
    match c.presence {
        Presence::Implicit | Presence::Explicit => {
            if wire_type == scalar_wire_type_of(c.ty) {
                let (v, p, l) = scalar_decode_inner(c.ty, limit, src, pos)?;
                if c.presence == Presence::Explicit {
                    *dst = Val::Option(Some(Box::new(v)));
                } else {
                    *dst = v;
                }
                Ok((p, l))
            } else {
                Err(DecodeError::new(scalar_wire_error_of(c.ty)))
            }
        },
        _ => {
            let stringy = scalar_wire_type_of(c.ty) == WireType::LengthDelimited;
            repeated_merge(m, !stringy, scalar_wire_type_of(c.ty), scalar_wire_error_of(c.ty), wire_type, limit, src, pos, dst)
        },
    }
}

/// Merges an enumeration field.
fn enum_merge(m: &Merger, wire_type: WireType, limit: u32, src: &[u8], pos: usize, dst: &mut Val) -> (r: Result<(usize, u32), DecodeError>)
    requires
        pos <= src@.len(),
        m is Enum,
    ensures
        merge_agrees(r, *final(dst), merge_spec(m@, wire_type, src@, pos as int, limit, old(dst)@)),
        merge_bounded(r, src@, pos as int, limit),
{
    let (k, vars) = match m {
        Merger::Enum(k, vars) => (*k, vars),
        _ => {
            return Err(DecodeError::new(REPEATED_NON_LIST));
        },
    };
    match k {
        EnumMerge::Implicit | EnumMerge::Explicit => {
            if wire_type == WireType::Varint {
                let (v, p, l) = enum_inner(vars, limit, src, pos)?;
                if k == EnumMerge::Explicit {
                    *dst = Val::Option(Some(Box::new(v)));
                } else {
                    *dst = v;
                }
                Ok((p, l))
            } else {
                Err(DecodeError::new(WIRETYPE_NON_VARINT))
            }
        },
        EnumMerge::Repeated => repeated_merge(m, true, WireType::Varint, WIRETYPE_NON_VARINT, wire_type, limit, src, pos, dst),
    }
}

/// The index of the last subfield entry for field number `n`.
fn find_subfield_index(subs: &Vec<(u32, u32, Merger)>, n: u32) -> (r: Option<usize>)
    ensures
        match find_subfield(subs_view(subs@), n) {
            Some(j) => r matches Some(k) && k == j && 0 <= j < subs@.len(),
            None => r is None,
        },
{
    let ghost all = subs_view(subs@);
    let mut i = subs.len();
    assert(all.take(i as int) =~= all);
    while i > 0
        invariant
            i <= subs@.len(),
            all == subs_view(subs@),
            find_subfield(all, n) == find_subfield(all.take(i as int), n),
        decreases i,
    {
        assert(all.take(i as int).drop_last() =~= all.take(i - 1));
        if subs[i - 1].0 == n {
            proof {
                lemma_find_subfield(all.take(i as int), n);
            }
            return Some(i - 1);
        }
        i = i - 1;
    }
    None
}

impl Merger {
    /// Decodes a value from `src` at `pos`, reading within `limit` bytes, and merges it into `dst`:
    /// the position after what was read and the limit left.
    pub fn merge(&self, wire_type: WireType, limit: u32, src: &[u8], pos: usize, dst: &mut Val) -> (r: Result<
        (usize, u32),
        DecodeError,
    >)
        requires
            pos <= src@.len(),
        ensures
            merge_agrees(r, *final(dst), merge_spec(self@, wire_type, src@, pos as int, limit, old(dst)@)),
            merge_bounded(r, src@, pos as int, limit),
        decreases limit, self, 3int,
    {
        match self {
            Merger::Scalar(_) => scalar_merge(self, wire_type, limit, src, pos, dst),
            Merger::Enum(_, _) => enum_merge(self, wire_type, limit, src, pos, dst),
            Merger::Message(k, _, _) => match k {
                MessageMerge::Inner => message_inner_merge(self, limit, src, pos, dst),
                MessageMerge::Outer => message_outer_merge(self, wire_type, limit, src, pos, dst),
                MessageMerge::Repeated => message_repeated_merge(self, wire_type, limit, src, pos, dst),
            },
            Merger::Oneof(_, _) => oneof_variant_merge(self, wire_type, limit, src, pos, dst),
        }
    }
}

/// Merges one field, numbered `n`, into the record fields `fields`:
/// into the record field that its number names, or else skipped.
#[verifier::spinoff_prover]
#[verifier::rlimit(40)]
fn merge_field(
    m: &Merger,
    n: u32,
    wire_type: WireType,
    limit: u32,
    src: &[u8],
    pos: usize,
    fields: &mut Vec<(String, Val)>,
) -> (r: Result<(usize, u32), DecodeError>)
    requires
        pos <= src@.len(),
        m is Message,
    ensures
        match field_spec(m@, n, wire_type, src@, pos as int, limit, record_view(old(fields)@)) {
            Ok((f, p, l)) => r matches Ok((p2, l2)) && p2 == p && l2 == l && record_view(final(fields)@) == f,
            Err(e) => is_error(r, e),
        },
        r matches Ok((p, l)) ==> pos <= p <= src@.len() && l <= limit,
    decreases limit, m, 0int,
{
    let subs = match m {
        Merger::Message(_, subs, _) => subs,
        _ => {
            return Err(DecodeError::new(MESSAGE_NON_RECORD));
        },
    };
    proof {
        match m {
            Merger::Message(k, subs, defaults) => lemma_message_view(*k, *subs, *defaults),
            _ => {},
        }
    }
    let ghost sv = subs_view(subs@);
    let ghost before = fields@;
    let ghost rv = record_view(before);
    assert(m@ == MergerV::Message(m@->Message_0, sv, m@->Message_2));
    match find_subfield_index(subs, n) {
        Some(j) => {
            let index = subs[j].1;
            assert(find_subfield(sv, n) == Some(j as int));
            assert(sv[j as int].1 == index);
            assert(sv[j as int].2 == subs@[j as int].2@);
            if (index as usize) < fields.len() {
                let mut entry = (String::new(), Val::Bool(false));
                fields.set_and_swap(index as usize, &mut entry);
                let ghost name = entry.0;
                assert(entry == before[index as int]);
                assert(rv[index as int] == (name@, entry.1@));
                match subs[j].2.merge(wire_type, limit, src, pos, &mut entry.1) {
                    Ok((p, l)) => {
                        let ghost merged = entry.1;
                        fields.set_and_swap(index as usize, &mut entry);
                        proof {
                            assert(fields@ == before.update(index as int, (name, merged)));
                            assert(record_view(fields@) =~= rv.update(index as int, (rv[index as int].0, merged@)));
                        }
                        Ok((p, l))
                    },
                    Err(e) => Err(e.with_field(n)),
                }
            } else {
                Err(DecodeError::new(FIELD_INDEX_OUT_OF_BOUNDS).with_field(n))
            }
        },
        None => {
            assert(find_subfield(sv, n) is None);
            match skip(wire_type, limit, src, pos) {
                Ok((p, l)) => Ok((p, l)),
                Err(e) => Err(e.with_field(n)),
            }
        },
    }
}

/// Merges the contents of a message into the record in `dst`, field by field,
/// until the limit is used up.
fn message_inner_merge(m: &Merger, limit: u32, src: &[u8], pos: usize, dst: &mut Val) -> (r: Result<
    (usize, u32),
    DecodeError,
>)
    requires
        pos <= src@.len(),
        m is Message,
    ensures
        merge_agrees(r, *final(dst), inner_spec(m@, src@, pos as int, limit, old(dst)@)),
        merge_bounded(r, src@, pos as int, limit),
    decreases limit, m, 2int,
{
    let mut cur = Val::Bool(false);
    std::mem::swap(&mut cur, dst);
    let mut fields = match cur {
        Val::Record(fields) => fields,
        other => {
            *dst = other;
            return Err(DecodeError::new(MESSAGE_NON_RECORD));
        },
    };
    proof {
        crate::runtime::value::lemma_record_view(fields);
    }
    let mut rest = limit;
    let mut p = pos;
    while rest > 0
        invariant
            pos <= p <= src@.len(),
            rest <= limit,
            m is Message,
            old(dst)@ is Record,
            fields_spec(m@, src@, pos as int, limit, old(dst)@->Record_0)
                == fields_spec(m@, src@, p as int, rest, record_view(fields@)),
        decreases rest,
    {
        let (n, wire_type, p1, l1) = decode_tag(rest, src, p)?;
        let (p2, l2) = merge_field(m, n, wire_type, l1, src, p1, &mut fields)?;
        p = p2;
        rest = l2;
    }
    *dst = Val::Record(fields);
    proof {
        crate::runtime::value::lemma_record_view(fields);
    }
    Ok((p, rest))
}

/// Merges a length-delimited message as a present option in `dst`,
/// its record starting from the defaults.
fn message_outer_merge(m: &Merger, wire_type: WireType, limit: u32, src: &[u8], pos: usize, dst: &mut Val) -> (r: Result<
    (usize, u32),
    DecodeError,
>)
    requires
        pos <= src@.len(),
        m is Message,
        m->Message_0 == MessageMerge::Outer,
    ensures
        merge_agrees(r, *final(dst), merge_spec(m@, wire_type, src@, pos as int, limit, old(dst)@)),
        merge_bounded(r, src@, pos as int, limit),
    decreases limit, m, 2int,
{
    let defaults = match m {
        Merger::Message(_, _, defaults) => defaults,
        _ => {
            return Err(DecodeError::new(MESSAGE_NON_RECORD));
        },
    };
    proof {
        match m {
            Merger::Message(k, subs, defaults) => lemma_message_view(*k, *subs, *defaults),
            _ => {},
        }
    }
    if wire_type == WireType::LengthDelimited {
        let (length, p, l) = read_length_check_overflow(limit, src, pos)?;
        let fields = clone_fields(defaults);
        proof {
            crate::runtime::value::lemma_record_view(fields);
        }
        let mut value = Val::Record(fields);
        let (p2, _) = message_inner_merge(m, length, src, p, &mut value)?;
        *dst = Val::Option(Some(Box::new(value)));
        Ok((p2, l))
    } else {
        Err(DecodeError::new(WIRETYPE_NON_LENGTH_DELIMITED))
    }
}

/// Merges a length-delimited message as a new record at the end of the list in `dst`.
/// Repeated messages are always expanded, never packed.
fn message_repeated_merge(m: &Merger, wire_type: WireType, limit: u32, src: &[u8], pos: usize, dst: &mut Val) -> (r: Result<
    (usize, u32),
    DecodeError,
>)
    requires
        pos <= src@.len(),
        m is Message,
        m->Message_0 == MessageMerge::Repeated,
    ensures
        merge_agrees(r, *final(dst), merge_spec(m@, wire_type, src@, pos as int, limit, old(dst)@)),
        merge_bounded(r, src@, pos as int, limit),
    decreases limit, m, 2int,
{
    let defaults = match m {
        Merger::Message(_, _, defaults) => defaults,
        _ => {
            return Err(DecodeError::new(MESSAGE_NON_RECORD));
        },
    };
    proof {
        match m {
            Merger::Message(k, subs, defaults) => lemma_message_view(*k, *subs, *defaults),
            _ => {},
        }
    }
    let mut cur = Val::Bool(false);
    std::mem::swap(&mut cur, dst);
    let mut items = match cur {
        Val::List(items) => items,
        other => {
            *dst = other;
            return Err(DecodeError::new(REPEATED_NON_LIST));
        },
    };
    proof {
        crate::runtime::value::lemma_list_view(items);
    }
    if wire_type == WireType::LengthDelimited {
        let i = items.len();
        let (length, p, l) = match read_length_check_overflow(limit, src, pos) {
            Ok(x) => x,
            Err(e) => {
                return Err(e.with_index(i));
            },
        };
        let fields = clone_fields(defaults);
        proof {
            crate::runtime::value::lemma_record_view(fields);
        }
        let mut value = Val::Record(fields);
        let (p2, _) = match message_inner_merge(m, length, src, p, &mut value) {
            Ok(x) => x,
            Err(e) => {
                return Err(e.with_index(i));
            },
        };
        proof {
            assert(list_view(items@.push(value)) =~= list_view(items@).push(value@));
        }
        items.push(value);
        proof {
            crate::runtime::value::lemma_list_view(items);
        }
        *dst = Val::List(items);
        Ok((p2, l))
    } else {
        Err(DecodeError::new(WIRETYPE_NON_LENGTH_DELIMITED))
    }
}

/// Merges a oneof variant: decodes its payload as an option and wraps it as the named variant.
/// Oneof variants are never repeated, and always explicitly present.
fn oneof_variant_merge(m: &Merger, wire_type: WireType, limit: u32, src: &[u8], pos: usize, dst: &mut Val) -> (r: Result<
    (usize, u32),
    DecodeError,
>)
    requires
        pos <= src@.len(),
        m is Oneof,
    ensures
        merge_agrees(r, *final(dst), merge_spec(m@, wire_type, src@, pos as int, limit, old(dst)@)),
        merge_bounded(r, src@, pos as int, limit),
    decreases limit, m, 2int,
{
    let (name, inner) = match m {
        Merger::Oneof(name, inner) => (name, inner),
        _ => {
            return Err(DecodeError::new(NON_EXPLICIT_ONEOF_VARIANT));
        },
    };
    let mut value = Val::Option(None);
    let (p, l) = inner.merge(wire_type, limit, src, pos, &mut value)?;
    match value {
        Val::Option(payload) => {
            let variant = Val::Variant(name.clone(), payload);
            assert(variant@ == Value::Variant(name@, value@->Option_0));
            *dst = Val::Option(Some(Box::new(variant)));
            Ok((p, l))
        },
        _ => Err(DecodeError::new(NON_EXPLICIT_ONEOF_VARIANT)),
    }
}

// ---------------------------------------------------------------------------------------
// Compiling metadata into mergers.

pub const NO_CODING: &'static str = "decoder-subfield-no-coding";
pub const ONEOF_VARIANT_NO_CODING: &'static str = "decoder-oneof-variant-no-coding";
pub const NON_EXPLICIT_ONEOF: &'static str = "decoder-non-explicit-oneof-variant";
pub const BAD_SCALAR_CODING: &'static str = "bad-scalar-coding";
pub const BAD_COMPOUND_CODING: &'static str = "bad-compound-coding";
pub const ENUM_WITHOUT_DEFAULT: &'static str = "Enum must have a default value";
pub const REQUEST_TOO_BIG: &'static str = "Request is too big";
pub const DECODE_ERROR: &'static str = "decode-error";

/// The default of a scalar field: the type's zero where presence is implicit,
/// an absent option where it is explicit, and an empty list where the field repeats.
pub open spec fn scalar_default(c: ScalarCoding) -> Value {
    match c.presence {
        Presence::Explicit => Value::Option(None),
        Presence::Packed | Presence::Expanded => Value::List(seq![]),
        Presence::Implicit => match c.ty {
            ScalarType::Bytes => Value::List(seq![]),
            ScalarType::StringUtf8 | ScalarType::StringPermissive => Value::String(seq![]),
            ScalarType::Bool => Value::Bool(false),
            ScalarType::Int32 | ScalarType::Sint32 | ScalarType::Sfixed32 => Value::S32(0),
            ScalarType::Uint32 | ScalarType::Fixed32 => Value::U32(0),
            ScalarType::Int64 | ScalarType::Sint64 | ScalarType::Sfixed64 => Value::S64(0),
            ScalarType::Uint64 | ScalarType::Fixed64 => Value::U64(0),
            ScalarType::Float => Value::Float32(0),
            ScalarType::Double => Value::Float64(0),
        },
    }
}

/// The variants of an enumeration, by number, in order.
pub open spec fn enum_variants_spec(fs: Seq<FieldV>) -> Seq<(u32, Seq<char>)> {
    Seq::new(fs.len(), |j: int| (fs[j].number, fs[j].name))
}

/// Compiles a message field into a merger of kind `k`.
pub open spec fn compile_message_spec(field: FieldV, k: MessageMerge) -> Result<MergerV, StatusView>
    decreases field, 0int, 0int,
{
    match compile_subfields_spec(field.subfields, 0, seq![], seq![]) {
        Err(s) => Err(s),
        Ok((subs, defaults)) => Ok(MergerV::Message(k, subs, defaults)),
    }
}

/// Compiles the subfields of a message from index `i` on, extending the subfield entries and
/// the defaults built so far. A oneof adds an entry for each variant, all filling the oneof's
/// record field.
pub open spec fn compile_subfields_spec(
    fs: Seq<FieldV>,
    i: int,
    subs: Seq<(u32, u32, MergerV)>,
    defaults: Seq<(Seq<char>, Value)>,
) -> Result<(Seq<(u32, u32, MergerV)>, Seq<(Seq<char>, Value)>), StatusView>
    decreases fs, 2int, fs.len() - i,
{
    if i < 0 || i >= fs.len() {
        Ok((subs, defaults))
    } else {
        let f = fs[i];
        let entry = |m: MergerV| (f.number, i as u32, m);
        match f.coding {
            None => Err(status(Code::Internal, NO_CODING)),
            Some(Coding::ScalarCoding(c)) => match scalar_coding_of(c as int) {
                None => Err(status(Code::Internal, BAD_SCALAR_CODING)),
                Some(sc) => compile_subfields_spec(
                    fs,
                    i + 1,
                    subs.push(entry(MergerV::Scalar(sc))),
                    defaults.push((f.name, scalar_default(sc))),
                ),
            },
            Some(Coding::CompoundCoding(c)) => match compound_coding_of(c as int) {
                None => Err(status(Code::Internal, BAD_COMPOUND_CODING)),
                Some(CompoundCoding::EnumImplicit) => {
                    let vars = enum_variants_spec(f.subfields);
                    match variant_name(vars, 0) {
                        Some(d) => compile_subfields_spec(
                            fs,
                            i + 1,
                            subs.push(entry(MergerV::Enum(EnumMerge::Implicit, vars))),
                            defaults.push((f.name, Value::Enum(d))),
                        ),
                        None => Err(status(Code::FailedPrecondition, ENUM_WITHOUT_DEFAULT)),
                    }
                },
                Some(CompoundCoding::EnumExplicit) => compile_subfields_spec(
                    fs,
                    i + 1,
                    subs.push(entry(MergerV::Enum(EnumMerge::Explicit, enum_variants_spec(f.subfields)))),
                    defaults.push((f.name, Value::Option(None))),
                ),
                Some(CompoundCoding::EnumPacked) | Some(CompoundCoding::EnumExpanded) => compile_subfields_spec(
                    fs,
                    i + 1,
                    subs.push(entry(MergerV::Enum(EnumMerge::Repeated, enum_variants_spec(f.subfields)))),
                    defaults.push((f.name, Value::List(seq![]))),
                ),
                Some(CompoundCoding::Message) => match compile_message_spec(f, MessageMerge::Outer) {
                    Err(s) => Err(s),
                    Ok(m) => compile_subfields_spec(
                        fs,
                        i + 1,
                        subs.push(entry(m)),
                        defaults.push((f.name, Value::Option(None))),
                    ),
                },
                Some(CompoundCoding::MessageExpanded) => match compile_message_spec(f, MessageMerge::Repeated) {
                    Err(s) => Err(s),
                    Ok(m) => compile_subfields_spec(
                        fs,
                        i + 1,
                        subs.push(entry(m)),
                        defaults.push((f.name, Value::List(seq![]))),
                    ),
                },
                Some(CompoundCoding::Oneof) => {
                    proof {
                        assert(decreases_to!(fs => fs[i]));
                    }
                    match compile_variants_spec(f.subfields, 0, i as u32, subs) {
                        Err(s) => Err(s),
                        Ok(subs2) => compile_subfields_spec(
                            fs,
                            i + 1,
                            subs2,
                            defaults.push((f.name, Value::Option(None))),
                        ),
                    }
                },
            },
        }
    }
}

/// Compiles the variants of a oneof from index `j` on into subfield entries for record field `index`.
pub open spec fn compile_variants_spec(
    vs: Seq<FieldV>,
    j: int,
    index: u32,
    subs: Seq<(u32, u32, MergerV)>,
) -> Result<Seq<(u32, u32, MergerV)>, StatusView>
    decreases vs, 2int, vs.len() - j,
{
    if j < 0 || j >= vs.len() {
        Ok(subs)
    } else {
        match compile_oneof_variant_spec(vs[j]) {
            Err(s) => Err(s),
            Ok(m) => compile_variants_spec(vs, j + 1, index, subs.push((vs[j].number, index, m))),
        }
    }
}

/// Compiles a oneof variant, whose coding must track presence explicitly.
pub open spec fn compile_oneof_variant_spec(v: FieldV) -> Result<MergerV, StatusView>
    decreases v, 1int, 0int,
{
    match v.coding {
        None => Err(status(Code::Internal, ONEOF_VARIANT_NO_CODING)),
        Some(Coding::ScalarCoding(c)) => if is_explicit_scalar(c) {
            match scalar_coding_of(c as int) {
                None => Err(status(Code::Internal, BAD_SCALAR_CODING)),
                Some(sc) => Ok(MergerV::Oneof(v.name, Box::new(MergerV::Scalar(sc)))),
            }
        } else {
            Err(status(Code::Internal, NON_EXPLICIT_ONEOF))
        },
        Some(Coding::CompoundCoding(c)) => match compound_coding_of(c as int) {
            None => Err(status(Code::Internal, BAD_COMPOUND_CODING)),
            Some(CompoundCoding::EnumExplicit) => Ok(
                MergerV::Oneof(v.name, Box::new(MergerV::Enum(EnumMerge::Explicit, enum_variants_spec(v.subfields)))),
            ),
            Some(CompoundCoding::Message) => match compile_message_spec(v, MessageMerge::Outer) {
                Err(s) => Err(s),
                Ok(m) => Ok(MergerV::Oneof(v.name, Box::new(m))),
            },
            Some(_) => Err(status(Code::Internal, NON_EXPLICIT_ONEOF)),
        },
    }
}

/// Whether an executable compilation result agrees with its model.
pub open spec fn compiled(r: Result<Merger, Status>, s: Result<MergerV, StatusView>) -> bool {
    match s {
        Ok(m) => r matches Ok(x) && x@ == m,
        Err(e) => r matches Err(x) && x@ == e,
    }
}

impl Merger {
    /// A merger for a scalar field, and the field's default value.
    pub fn scalar(coding: ScalarCoding) -> (r: (Merger, Val))
        ensures
            r.0@ == MergerV::Scalar(coding),
            r.1@ == scalar_default(coding),
    {
        let default = match coding.presence {
            Presence::Explicit => Val::Option(None),
            Presence::Packed | Presence::Expanded => empty_list(),
            Presence::Implicit => match coding.ty {
                ScalarType::Bytes => empty_list(),
                ScalarType::StringUtf8 | ScalarType::StringPermissive => Val::String(Vec::new()),
                ScalarType::Bool => Val::Bool(false),
                ScalarType::Int32 | ScalarType::Sint32 | ScalarType::Sfixed32 => Val::S32(0),
                ScalarType::Uint32 | ScalarType::Fixed32 => Val::U32(0),
                ScalarType::Int64 | ScalarType::Sint64 | ScalarType::Sfixed64 => Val::S64(0),
                ScalarType::Uint64 | ScalarType::Fixed64 => Val::U64(0),
                ScalarType::Float => Val::Float32(0),
                ScalarType::Double => Val::Float64(0),
            },
        };
        (Merger::Scalar(coding), default)
    }

    /// Compiles the metadata of a request message into the merger of its contents.
    pub fn message_inner(message: &Field) -> (r: Result<Merger, Status>)
        ensures
            compiled(r, compile_message_spec(message@, MessageMerge::Inner)),
    {
        compile_message(message, MessageMerge::Inner)
    }
}

/// An empty list.
fn empty_list() -> (v: Val)
    ensures
        v@ == Value::List(seq![]),
{
    let items: Vec<Val> = Vec::new();
    proof {
        crate::runtime::value::lemma_list_view(items);
        assert(list_view(items@) =~= seq![]);
    }
    Val::List(items)
}

/// The merger of an enumeration: its variants by number.
fn compile_enum_variants(enumeration: &Field, kind: EnumMerge) -> (m: Merger)
    ensures
        m@ == MergerV::Enum(kind, enum_variants_spec(enumeration@.subfields)),
{
    let mut variants: Vec<(u32, String)> = Vec::new();
    for i in 0..enumeration.subfields.len()
        invariant
            variants@.len() == i,
            forall|j: int| 0 <= j < i ==> (#[trigger] variants@[j]).0 == enumeration.subfields@[j].number
                && variants@[j].1@ == enumeration.subfields@[j].name@,
    {
        let subfield = &enumeration.subfields[i];
        variants.push((subfield.number, subfield.name.clone()));
    }
    proof {
        reveal_with_fuel(crate::runtime::schema::field_model, 2);
        assert(variants_view(variants@) =~= enum_variants_spec(enumeration@.subfields));
    }
    Merger::Enum(kind, variants)
}

/// Compiles a message field into a merger of kind `kind`: one entry per subfield number,
/// and the default of each record field.
fn compile_message(field: &Field, kind: MessageMerge) -> (r: Result<Merger, Status>)
    ensures
        compiled(r, compile_message_spec(field@, kind)),
    decreases field, 0int, 0int,
{
    let mut subs: Vec<(u32, u32, Merger)> = Vec::new();
    let mut defaults: Vec<(String, Val)> = Vec::new();
    let ghost fs = field@.subfields;
    let n = field.subfields.len();
    assert(subs_view(subs@) =~= seq![]);
    assert(record_view(defaults@) =~= seq![]);
    for index in 0..n
        invariant
            n == field.subfields@.len(),
            fs == field@.subfields,
            fs.len() == n,
            forall|k: int| 0 <= k < n ==> #[trigger] fs[k] == field.subfields@[k]@,
            compile_subfields_spec(fs, 0, seq![], seq![])
                == compile_subfields_spec(fs, index as int, subs_view(subs@), record_view(defaults@)),
    {
        let subfield = &field.subfields[index];
        assert(fs[index as int] == subfield@);
        let coding = match subfield.coding {
            Some(c) => c,
            None => {
                return Err(Status::internal(NO_CODING));
            },
        };
        let entry: Option<(Merger, Val)> = match coding {
            Coding::ScalarCoding(c) => match ScalarCoding::try_from(c) {
                Some(sc) => Some(Merger::scalar(sc)),
                None => {
                    return Err(Status::internal(BAD_SCALAR_CODING));
                },
            },
            Coding::CompoundCoding(c) => match CompoundCoding::try_from(c) {
                None => {
                    return Err(Status::internal(BAD_COMPOUND_CODING));
                },
                Some(CompoundCoding::EnumImplicit) => {
                    let merger = compile_enum_variants(subfield, EnumMerge::Implicit);
                    let default = match &merger {
                        Merger::Enum(_, vars) => lookup_variant(vars, 0),
                        _ => None,
                    };
                    match default {
                        Some(name) => Some((merger, Val::Enum(name))),
                        None => {
                            return Err(Status::failed_precondition(ENUM_WITHOUT_DEFAULT));
                        },
                    }
                },
                Some(CompoundCoding::EnumExplicit) => Some((
                    compile_enum_variants(subfield, EnumMerge::Explicit),
                    Val::Option(None),
                )),
                Some(CompoundCoding::EnumPacked) | Some(CompoundCoding::EnumExpanded) => Some((
                    compile_enum_variants(subfield, EnumMerge::Repeated),
                    empty_list(),
                )),
                Some(CompoundCoding::Message) => Some((
                    compile_message(subfield, MessageMerge::Outer)?,
                    Val::Option(None),
                )),
                Some(CompoundCoding::MessageExpanded) => Some((
                    compile_message(subfield, MessageMerge::Repeated)?,
                    empty_list(),
                )),
                Some(CompoundCoding::Oneof) => {
                    // The variants of a oneof all fill the oneof's record field.
                    compile_oneof_variants(subfield, index as u32, &mut subs)?;
                    let ghost before = record_view(defaults@);
                    defaults.push((subfield.name.clone(), Val::Option(None)));
                    proof {
                        assert(record_view(defaults@) =~= before.push((subfield@.name, Value::Option(None))));
                    }
                    None
                },
            },
        };
        if let Some((merger, default)) = entry {
            let ghost subs_before = subs_view(subs@);
            let ghost defaults_before = record_view(defaults@);
            let ghost mv = merger@;
            let ghost dv = default@;
            subs.push((subfield.number, index as u32, merger));
            defaults.push((subfield.name.clone(), default));
            proof {
                assert(subs_view(subs@) =~= subs_before.push((subfield@.number, index as u32, mv)));
                assert(record_view(defaults@) =~= defaults_before.push((subfield@.name, dv)));
            }
        }
    }
    let merger = Merger::Message(kind, subs, defaults);
    proof {
        lemma_message_view(kind, subs, defaults);
    }
    Ok(merger)
}

/// Adds the subfield entries of the variants of `oneof`, all filling record field `index`.
fn compile_oneof_variants(oneof: &Field, index: u32, subs: &mut Vec<(u32, u32, Merger)>) -> (r: Result<(), Status>)
    ensures
        match compile_variants_spec(oneof@.subfields, 0, index, subs_view(old(subs)@)) {
            Ok(s) => r is Ok && subs_view(final(subs)@) == s,
            Err(e) => r matches Err(x) && x@ == e,
        },
    decreases oneof, 2int, 0int,
{
    let ghost vs = oneof@.subfields;
    let m = oneof.subfields.len();
    proof {
        reveal_with_fuel(crate::runtime::schema::field_model, 1);
    }
    assert(vs.len() == m);
    for j in 0..m
        invariant
            m == oneof.subfields@.len(),
            vs == oneof@.subfields,
            forall|k: int| 0 <= k < m ==> #[trigger] vs[k] == oneof.subfields@[k]@,
            compile_variants_spec(vs, 0, index, subs_view(old(subs)@))
                == compile_variants_spec(vs, j as int, index, subs_view(subs@)),
    {
        let variant = &oneof.subfields[j];
        assert(vs[j as int] == variant@);
        let merger = compile_oneof_variant(variant)?;
        let ghost before = subs_view(subs@);
        let ghost mv = merger@;
        subs.push((variant.number, index, merger));
        proof {
            assert(subs_view(subs@) =~= before.push((variant@.number, index, mv)));
        }
    }
    Ok(())
}

/// Compiles a oneof variant; its coding must track presence explicitly.
fn compile_oneof_variant(variant: &Field) -> (r: Result<Merger, Status>)
    ensures
        compiled(r, compile_oneof_variant_spec(variant@)),
    decreases variant, 1int, 0int,
{
    let coding = match variant.coding {
        Some(c) => c,
        None => {
            return Err(Status::internal(ONEOF_VARIANT_NO_CODING));
        },
    };
    let merger = match coding {
        Coding::ScalarCoding(c) => {
            if explicit_scalar(c) {
                match ScalarCoding::try_from(c) {
                    Some(sc) => Merger::scalar(sc).0,
                    None => {
                        return Err(Status::internal(BAD_SCALAR_CODING));
                    },
                }
            } else {
                return Err(Status::internal(NON_EXPLICIT_ONEOF));
            }
        },
        Coding::CompoundCoding(c) => match CompoundCoding::try_from(c) {
            None => {
                return Err(Status::internal(BAD_COMPOUND_CODING));
            },
            Some(CompoundCoding::EnumExplicit) => compile_enum_variants(variant, EnumMerge::Explicit),
            Some(CompoundCoding::Message) => compile_message(variant, MessageMerge::Outer)?,
            Some(_) => {
                return Err(Status::internal(NON_EXPLICIT_ONEOF));
            },
        },
    };
    Ok(Merger::Oneof(variant.name.clone(), Box::new(merger)))
}

// ---------------------------------------------------------------------------------------
// Requests.

/// Decodes top-level request messages: a compiled merger for the message's contents,
/// and the component the requests are for.
#[derive(Debug)]
pub struct RequestDecoder {
    pub inner: Merger,
    pub component: ComponentName,
}

/// The default fields of a message merger.
pub open spec fn defaults_of(m: MergerV) -> Seq<(Seq<char>, Value)> {
    match m {
        MergerV::Message(_, _, defaults) => defaults,
        _ => seq![],
    }
}

/// Decodes a whole request with merger `m`: its record, merged from the defaults;
/// a request whose length does not fit in 32 bits is refused.
pub open spec fn request_spec(m: MergerV, src: Seq<u8>) -> Result<Value, StatusView> {
    if src.len() > u32::MAX {
        Err(status(Code::InvalidArgument, REQUEST_TOO_BIG))
    } else {
        match merge_spec(m, WireType::LengthDelimited, src, 0, src.len() as u32, Value::Record(defaults_of(m))) {
            Ok((v, _, _)) => Ok(v),
            Err(_) => Err(status(Code::Internal, DECODE_ERROR)),
        }
    }
}

impl RequestDecoder {
    /// Compiles the decoder of `request` messages for `component`.
    pub fn new(request: &Field, component: ComponentName) -> (r: Result<Self, Status>)
        ensures
            match compile_message_spec(request@, MessageMerge::Inner) {
                Ok(m) => r matches Ok(d) && d.inner@ == m && d.component == component,
                Err(e) => r matches Err(x) && x@ == e,
            },
    {
        let inner = Merger::message_inner(request)?;
        Ok(RequestDecoder { inner, component })
    }

    /// Decodes a request message from all of `src`.
    pub fn decode(&self, src: &[u8]) -> (r: Result<Val, Status>)
        ensures
            match request_spec(self.inner@, src@) {
                Ok(v) => r matches Ok(x) && x@ == v,
                Err(e) => r matches Err(x) && x@ == e,
            },
    {
        if src.len() > u32::MAX as usize {
            return Err(Status::invalid_argument(REQUEST_TOO_BIG));
        }
        let fields = match &self.inner {
            Merger::Message(k, subs, defaults) => {
                proof {
                    lemma_message_view(*k, *subs, *defaults);
                }
                clone_fields(defaults)
            },
            _ => Vec::new(),
        };
        proof {
            crate::runtime::value::lemma_record_view(fields);
            if !(self.inner is Message) {
                assert(record_view(fields@) =~= seq![]);
            }
        }
        let mut value = Val::Record(fields);
        match self.inner.merge(WireType::LengthDelimited, src.len() as u32, src, 0, &mut value) {
            Ok(_) => Ok(value),
            Err(_) => Err(Status::internal(DECODE_ERROR)),
        }
    }
}

/// How a level of the traceback is shown: `.number` for a field, `[index]` for an item.
pub open spec fn level_text(l: DecodeLevel) -> Seq<char> {
    match l {
        DecodeLevel::Field(n) => seq!['.'] + decimal_string(n as nat),
        DecodeLevel::Index(i) => seq!['['] + decimal_string(i as nat) + seq![']'],
    }
}

/// How a traceback is shown: its levels outermost first.
pub open spec fn traceback_text(t: Seq<DecodeLevel>) -> Seq<char>
    decreases t.len(),
{
    if t.len() == 0 {
        seq![]
    } else {
        traceback_text(t.drop_first()) + level_text(t[0])
    }
}

/// How an error is shown: `DecodeError(.path.to[0].the.field): message`.
pub open spec fn describe_spec(e: DecodeErrorV) -> Seq<char> {
    "DecodeError("@ + traceback_text(e.traceback) + "): "@ + e.message
}

impl DecodeError {
    /// The error as text: where it was met, outermost level first, and its message.
    pub fn describe(&self) -> (s: String)
        ensures
            s@ == describe_spec(self@),
    {
        let mut out = String::new();
        out.append("DecodeError(");
        let ghost t = self.traceback@;
        let mut i = self.traceback.len();
        assert(t.subrange(i as int, t.len() as int) =~= seq![]);
        while i > 0
            invariant
                i <= t.len(),
                t == self.traceback@,
                out@ == "DecodeError("@ + traceback_text(t.subrange(i as int, t.len() as int)),
            decreases i,
        {
            let ghost before = out@;
            match self.traceback[i - 1] {
                DecodeLevel::Field(number) => {
                    out.append(".");
                    proof {
                        reveal_strlit(".");
                    }
                    push_decimal(&mut out, number as usize);
                },
                DecodeLevel::Index(index) => {
                    out.append("[");
                    push_decimal(&mut out, index);
                    out.append("]");
                    proof {
                        reveal_strlit("[");
                        reveal_strlit("]");
                    }
                },
            }
            proof {
                let s = t.subrange(i - 1, t.len() as int);
                assert(s.drop_first() =~= t.subrange(i as int, t.len() as int));
                assert(s[0] == t[i - 1]);
                assert(out@ =~= before + level_text(t[i - 1]));
            }
            i = i - 1;
        }
        assert(t.subrange(0, t.len() as int) =~= t);
        out.append("): ");
        out.append(self.message);
        out
    }
}

} // verus!
