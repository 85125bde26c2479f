//! Container metadata: the Protobuf shape of a component's requests and responses.
//!
//! A message is a tree of fields. Each field has a Protobuf number, the name of the
//! component value it maps to, a coding, and (for messages, oneofs and enumerations)
//! subfields; the subfields of an enumeration are its variants.
//!
//! Codings are numbered as in the metadata schema:
//! a scalar coding is `4 * t + p`, where `t` is the scalar type
//! (bytes, UTF-8 string, permissive string, bool, int32, sint32, sfixed32, uint32, fixed32,
//! int64, sint64, sfixed64, uint64, fixed64, float, double, in this order)
//! and `p` the presence (implicit, packed, explicit, expanded, in this order);
//! so the explicit codings are exactly those of the form `4n + 2`.
//! Compound codings are numbered enum-implicit, enum-packed, enum-explicit, enum-expanded,
//! message, message-expanded and oneof, from zero.

use vstd::prelude::*;

verus! {

/// How a field is coded: a scalar or a compound coding number.
#[derive(Clone, Copy, Debug, PartialEq, Eq, Structural)]
pub enum Coding {
    ScalarCoding(i32),
    CompoundCoding(i32),
}

/// A field of a message, oneof or enumeration.
#[derive(Debug)]
pub struct Field {
    pub number: u32,
    pub name: String,
    pub coding: Option<Coding>,
    pub subfields: Vec<Field>,
}

/// The model of a field.
pub struct FieldV {
    pub number: u32,
    pub name: Seq<char>,
    pub coding: Option<Coding>,
    pub subfields: Seq<FieldV>,
}

/// The model of a field.
pub open spec fn field_model(f: Field) -> FieldV
    decreases f,
{
    FieldV {
        number: f.number,
        name: f.name@,
        coding: f.coding,
        subfields: Seq::new(
            f.subfields@.len(),
            |i: int|
                if 0 <= i < f.subfields@.len() {
                    field_model(f.subfields@[i])
                } else {
                    FieldV { number: 0, name: Seq::empty(), coding: None, subfields: Seq::empty() }
                },
        ),
    }
}

impl View for Field {
    type V = FieldV;

    open spec fn view(&self) -> FieldV {
        field_model(*self)
    }
}

/// The scalar types of Protobuf.
#[derive(Clone, Copy, Debug, PartialEq, Eq, Structural)]
pub enum ScalarType {
    Bytes,
    StringUtf8,
    StringPermissive,
    Bool,
    Int32,
    Sint32,
    Sfixed32,
    Uint32,
    Fixed32,
    Int64,
    Sint64,
    Sfixed64,
    Uint64,
    Fixed64,
    Float,
    Double,
}

/// How a scalar field is present: implicitly (absent when it holds its default),
/// explicitly (an option), or repeated (packed or expanded).
#[derive(Clone, Copy, Debug, PartialEq, Eq, Structural)]
pub enum Presence {
    Implicit,
    Packed,
    Explicit,
    Expanded,
}

/// A scalar coding: a scalar type and a presence.
#[derive(Clone, Copy, Debug, PartialEq, Eq, Structural)]
pub struct ScalarCoding {
    pub ty: ScalarType,
    pub presence: Presence,
}

/// The compound codings.
#[derive(Clone, Copy, Debug, PartialEq, Eq, Structural)]
pub enum CompoundCoding {
    EnumImplicit,
    EnumPacked,
    EnumExplicit,
    EnumExpanded,
    Message,
    MessageExpanded,
    Oneof,
}

/// The position of a scalar type in the numbering.
pub open spec fn scalar_type_number(t: ScalarType) -> int {
    match t {
        ScalarType::Bytes => 0,
        ScalarType::StringUtf8 => 1,
        ScalarType::StringPermissive => 2,
        ScalarType::Bool => 3,
        ScalarType::Int32 => 4,
        ScalarType::Sint32 => 5,
        ScalarType::Sfixed32 => 6,
        ScalarType::Uint32 => 7,
        ScalarType::Fixed32 => 8,
        ScalarType::Int64 => 9,
        ScalarType::Sint64 => 10,
        ScalarType::Sfixed64 => 11,
        ScalarType::Uint64 => 12,
        ScalarType::Fixed64 => 13,
        ScalarType::Float => 14,
        ScalarType::Double => 15,
    }
}

/// The position of a presence in the numbering.
pub open spec fn presence_number(p: Presence) -> int {
    match p {
        Presence::Implicit => 0,
        Presence::Packed => 1,
        Presence::Explicit => 2,
        Presence::Expanded => 3,
    }
}

/// The number of a scalar coding.
pub open spec fn scalar_coding_number(c: ScalarCoding) -> int {
    4 * scalar_type_number(c.ty) + presence_number(c.presence)
}

/// The number of a compound coding.
pub open spec fn compound_coding_number(c: CompoundCoding) -> int {
    match c {
        CompoundCoding::EnumImplicit => 0,
        CompoundCoding::EnumPacked => 1,
        CompoundCoding::EnumExplicit => 2,
        CompoundCoding::EnumExpanded => 3,
        CompoundCoding::Message => 4,
        CompoundCoding::MessageExpanded => 5,
        CompoundCoding::Oneof => 6,
    }
}

/// The scalar coding with a given number, if there is one.
pub open spec fn scalar_coding_of(n: int) -> Option<ScalarCoding> {
    if exists|c: ScalarCoding| scalar_coding_number(c) == n {
        Some(choose|c: ScalarCoding| scalar_coding_number(c) == n)
    } else {
        None
    }
}

/// The compound coding with a given number, if there is one.
pub open spec fn compound_coding_of(n: int) -> Option<CompoundCoding> {
    if exists|c: CompoundCoding| compound_coding_number(c) == n {
        Some(choose|c: CompoundCoding| compound_coding_number(c) == n)
    } else {
        None
    }
}

/// Whether a scalar coding number is that of an explicitly present coding.
pub open spec fn is_explicit_scalar(n: i32) -> bool {
    n >= 0 && n % 4 == 2
}

/// Whether the scalar coding with number `scalar_coding` tracks presence explicitly.
pub fn explicit_scalar(scalar_coding: i32) -> (b: bool)
    ensures
        b == is_explicit_scalar(scalar_coding),
{
    scalar_coding >= 0 && scalar_coding % 4 == 2
}

fn scalar_type_from(n: i32) -> (t: ScalarType)
    requires
        0 <= n < 16,
    ensures
        scalar_type_number(t) == n,
{
    match n {
        0 => ScalarType::Bytes,
        1 => ScalarType::StringUtf8,
        2 => ScalarType::StringPermissive,
        3 => ScalarType::Bool,
        4 => ScalarType::Int32,
        5 => ScalarType::Sint32,
        6 => ScalarType::Sfixed32,
        7 => ScalarType::Uint32,
        8 => ScalarType::Fixed32,
        9 => ScalarType::Int64,
        10 => ScalarType::Sint64,
        11 => ScalarType::Sfixed64,
        12 => ScalarType::Uint64,
        13 => ScalarType::Fixed64,
        14 => ScalarType::Float,
        _ => ScalarType::Double,
    }
}

impl ScalarCoding {
    /// The scalar coding with number `n`, or `None` if no coding has that number.
    pub fn try_from(n: i32) -> (r: Option<ScalarCoding>)
        ensures
            r == scalar_coding_of(n as int),
    {
        if n < 0 || n >= 64 {
            proof {
                assert(!exists|c: ScalarCoding| scalar_coding_number(c) == n);
            }
            None
        } else {
            let ty = scalar_type_from(n / 4);
            let presence = match n % 4 {
                0 => Presence::Implicit,
                1 => Presence::Packed,
                2 => Presence::Explicit,
                _ => Presence::Expanded,
            };
            let c = ScalarCoding { ty, presence };
            proof {
                assert(scalar_coding_number(c) == n);
                assert forall|d: ScalarCoding| scalar_coding_number(d) == n implies d == c by {}
            }
            Some(c)
        }
    }
}

impl CompoundCoding {
    /// The compound coding with number `n`, or `None` if no coding has that number.
    pub fn try_from(n: i32) -> (r: Option<CompoundCoding>)
        ensures
            r == compound_coding_of(n as int),
    {
        let r = match n {
            0 => Some(CompoundCoding::EnumImplicit),
            1 => Some(CompoundCoding::EnumPacked),
            2 => Some(CompoundCoding::EnumExplicit),
            3 => Some(CompoundCoding::EnumExpanded),
            4 => Some(CompoundCoding::Message),
            5 => Some(CompoundCoding::MessageExpanded),
            6 => Some(CompoundCoding::Oneof),
            _ => None,
        };
        proof {
            match r {
                Some(c) => {
                    assert(compound_coding_number(c) == n);
                    assert forall|d: CompoundCoding| compound_coding_number(d) == n implies d == c by {}
                },
                None => {
                    assert(!exists|c: CompoundCoding| compound_coding_number(c) == n);
                },
            }
        }
        r
    }
}

} // verus!
