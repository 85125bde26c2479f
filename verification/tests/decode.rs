use workd::runtime::decode::{DecodeLevel, Merger, RequestDecoder, WireType};
use workd::runtime::error::Code;
use workd::runtime::names::Name;
use workd::runtime::schema::{Coding, Field};
use workd::runtime::value::Val;

const COMPONENT_NAME: &str = "1234567890abcdef1234567890abcdef:package.Service@1.2.3";

// Scalar coding numbers: 4 * type + presence.
const BYTES_IMPLICIT: i32 = 0;
const BYTES_EXPLICIT: i32 = 2;
const BYTES_EXPANDED: i32 = 3;
const STRING_UTF8_IMPLICIT: i32 = 4;
const STRING_UTF8_EXPANDED: i32 = 7;
const STRING_PERMISSIVE_EXPLICIT: i32 = 10;
const STRING_PERMISSIVE_EXPANDED: i32 = 11;
const BOOL_IMPLICIT: i32 = 12;
const BOOL_EXPLICIT: i32 = 14;
const INT32_IMPLICIT: i32 = 16;
const SINT32_IMPLICIT: i32 = 20;
const SINT32_EXPANDED: i32 = 23;
const FIXED32_IMPLICIT: i32 = 32;
const INT64_PACKED: i32 = 37;
const SINT64_IMPLICIT: i32 = 40;
const UINT64_IMPLICIT: i32 = 48;
const FLOAT_PACKED: i32 = 57;
const DOUBLE_EXPLICIT: i32 = 62;

// Compound coding numbers.
const ENUM_IMPLICIT: i32 = 0;
const ENUM_PACKED: i32 = 1;
const MESSAGE: i32 = 4;
const MESSAGE_EXPANDED: i32 = 5;
const ONEOF: i32 = 6;

fn scalar(name: &str, number: u32, coding: i32) -> Field {
    Field {
        name: String::from(name),
        number,
        coding: Some(Coding::ScalarCoding(coding)),
        subfields: Vec::new(),
    }
}

fn compound(name: &str, number: u32, coding: i32, subfields: Vec<Field>) -> Field {
    Field {
        name: String::from(name),
        number,
        coding: Some(Coding::CompoundCoding(coding)),
        subfields,
    }
}

fn variant(name: &str, number: u32) -> Field {
    Field { name: String::from(name), number, coding: None, subfields: Vec::new() }
}

fn request(subfields: Vec<Field>) -> Field {
    Field { number: 0, name: String::new(), coding: None, subfields }
}

fn decoder(subfields: Vec<Field>) -> RequestDecoder {
    let component = Name::parse(COMPONENT_NAME).component().unwrap();
    RequestDecoder::new(&request(subfields), component).unwrap()
}

fn record(fields: Vec<(&str, Val)>) -> Val {
    Val::Record(fields.into_iter().map(|(name, value)| (String::from(name), value)).collect())
}

fn some(value: Val) -> Val {
    Val::Option(Some(Box::new(value)))
}

fn string(s: &str) -> Val {
    Val::String(s.as_bytes().to_vec())
}

#[test]
fn test_messages_deep_nested_lengths() {
    let decoder = decoder(vec![
        compound("x", 1, MESSAGE, vec![scalar("a", 1, SINT32_IMPLICIT)]),
        compound("y", 2, MESSAGE, vec![
            compound("aa", 30, MESSAGE, vec![
                scalar("strings", 1, STRING_UTF8_EXPANDED),
                compound("variants", 0, ONEOF, vec![
                    compound("another", 5, MESSAGE, vec![scalar("aaa", 1, FLOAT_PACKED)]),
                    scalar("unused", 6, BOOL_EXPLICIT),
                ]),
            ]),
            scalar("bb", 3, INT64_PACKED),
        ]),
    ]);
    let buffer: Vec<u8> = vec![
        10, 2, 8, 9, 18, 36, 242, 1, 23, 10, 4, 116, 101, 115, 116, 10, 3, 105, 110, 103, 42, 10,
        10, 8, 0, 0, 0, 0, 0, 0, 128, 191, 26, 8, 127, 128, 1, 128, 128, 128, 1, 0,
    ];
    let result = decoder.decode(&buffer).unwrap();
    let expected = record(vec![
        ("x", some(record(vec![("a", Val::S32(-5))]))),
        ("y", some(record(vec![
            ("aa", some(record(vec![
                ("strings", Val::List(vec![string("test"), string("ing")])),
                ("variants", some(Val::Variant(
                    String::from("another"),
                    Some(Box::new(record(vec![(
                        "aaa",
                        Val::List(vec![Val::Float32(0.0f32.to_bits()), Val::Float32((-1.0f32).to_bits())]),
                    )]))),
                ))),
            ]))),
            ("bb", Val::List(vec![Val::S64(127), Val::S64(128), Val::S64(2097152), Val::S64(0)])),
        ]))),
    ]);
    assert_eq!(result, expected);
}

/// The four bytes fields of a message of scalar types (numbered 1 to 4 here), all
/// present, decoded together.
#[test]
fn test_bytes() {
    let decoder = decoder(vec![
        scalar("bytes-implicit", 1, BYTES_IMPLICIT),
        scalar("bytes-packed", 2, BYTES_EXPANDED),
        scalar("bytes-explicit", 3, BYTES_EXPLICIT),
        scalar("bytes-expanded", 4, BYTES_EXPANDED),
    ]);
    let implicit = [1u8, 0u8, 255u8, 195u8, 40u8];
    let mut buffer = Vec::new();
    buffer.extend_from_slice(&[0x0a, 5]);
    buffer.extend_from_slice(&implicit);
    for tag in [0x12u8, 0x22u8] {
        if tag == 0x22 {
            buffer.extend_from_slice(&[0x1a, 0]);
        }
        buffer.extend_from_slice(&[tag, 5]);
        buffer.extend_from_slice(&implicit);
        buffer.extend_from_slice(&[tag, 0, tag, 1, 0]);
    }
    let bytes = |b: &[u8]| Val::List(b.iter().map(|x| Val::U8(*x)).collect());
    let repeated = || Val::List(vec![bytes(&implicit), bytes(&[]), bytes(&[0])]);
    let expected = record(vec![
        ("bytes-implicit", bytes(&implicit)),
        ("bytes-packed", repeated()),
        ("bytes-explicit", some(bytes(&[]))),
        ("bytes-expanded", repeated()),
    ]);
    assert_eq!(decoder.decode(&buffer).unwrap(), expected);
}

#[test]
fn test_bytes_implicit() {
    let decoder = decoder(vec![scalar("bytes-implicit", 12, BYTES_IMPLICIT)]);
    let result = decoder.decode(&[98, 5, 1, 2, 3, 4, 5]).unwrap();
    let expected = record(vec![(
        "bytes-implicit",
        Val::List(vec![Val::U8(1), Val::U8(2), Val::U8(3), Val::U8(4), Val::U8(5)]),
    )]);
    assert_eq!(result, expected);
}

#[test]
fn test_bytes_implicit_empty() {
    let decoder = decoder(vec![scalar("bytes-implicit-empty", 12, BYTES_IMPLICIT)]);
    let result = decoder.decode(&[]).unwrap();
    assert_eq!(result, record(vec![("bytes-implicit-empty", Val::List(Vec::new()))]));
}

#[test]
fn test_bytes_explicit() {
    let decoder = decoder(vec![scalar("bytes-explicit", 1, BYTES_EXPLICIT)]);
    let result = decoder.decode(&[10, 0]).unwrap();
    assert_eq!(result, record(vec![("bytes-explicit", some(Val::List(Vec::new())))]));
}

#[test]
fn test_bytes_repeated() {
    let decoder = decoder(vec![scalar("bytes-repeated", 1, BYTES_EXPANDED)]);
    let result = decoder.decode(&[10, 2, 255, 127, 10, 0]).unwrap();
    let expected = record(vec![(
        "bytes-repeated",
        Val::List(vec![Val::List(vec![Val::U8(255), Val::U8(127)]), Val::List(Vec::new())]),
    )]);
    assert_eq!(result, expected);
}

#[test]
fn test_string_implicit() {
    let decoder = decoder(vec![scalar("string-implicit", 12, STRING_UTF8_IMPLICIT)]);
    let result = decoder.decode(&[98, 5, 104, 101, 108, 108, 111]).unwrap();
    assert_eq!(result, record(vec![("string-implicit", string("hello"))]));
}

#[test]
fn test_string_implicit_empty() {
    let decoder = decoder(vec![scalar("string-implicit-empty", 12, STRING_UTF8_IMPLICIT)]);
    let result = decoder.decode(&[]).unwrap();
    assert_eq!(result, record(vec![("string-implicit-empty", string(""))]));
}

#[test]
fn test_string_explicit() {
    let decoder = decoder(vec![scalar("string-explicit", 1, STRING_PERMISSIVE_EXPLICIT)]);
    let result = decoder.decode(&[10, 0]).unwrap();
    assert_eq!(result, record(vec![("string-explicit", some(string("")))]));
}

#[test]
fn test_string_repeated() {
    let decoder = decoder(vec![scalar("string-repeated", 1, STRING_PERMISSIVE_EXPANDED)]);
    let result = decoder.decode(&[10, 7, 102, 101, 114, 115, 104, 101, 114, 10, 0]).unwrap();
    assert_eq!(
        result,
        record(vec![("string-repeated", Val::List(vec![string("fersher"), string("")]))])
    );
}

#[test]
fn decode_defaults_for_absent_fields() {
    let decoder = decoder(vec![
        scalar("flag", 1, BOOL_IMPLICIT),
        scalar("count", 2, INT32_IMPLICIT),
        scalar("ratio", 3, DOUBLE_EXPLICIT),
        compound("kind", 4, ENUM_IMPLICIT, vec![variant("zero", 0), variant("one", 1)]),
        compound("items", 5, MESSAGE_EXPANDED, vec![scalar("id", 1, UINT64_IMPLICIT)]),
    ]);
    let result = decoder.decode(&[]).unwrap();
    let expected = record(vec![
        ("flag", Val::Bool(false)),
        ("count", Val::S32(0)),
        ("ratio", Val::Option(None)),
        ("kind", Val::Enum(String::from("zero"))),
        ("items", Val::List(Vec::new())),
    ]);
    assert_eq!(result, expected);
}

#[test]
fn decode_scalars_and_enums() {
    let decoder = decoder(vec![
        scalar("flag", 1, BOOL_IMPLICIT),
        scalar("fixed", 2, FIXED32_IMPLICIT),
        scalar("big", 3, SINT64_IMPLICIT),
        compound("kinds", 4, ENUM_PACKED, vec![variant("zero", 0), variant("one", 1)]),
        scalar("signed", 5, SINT32_EXPANDED),
    ]);
    let buffer: Vec<u8> = vec![
        8, 1, // flag: true
        21, 0x78, 0x56, 0x34, 0x12, // fixed: 0x12345678
        24, 3, // big: -2
        34, 3, 1, 7, 0, // kinds: one, unknown (zero), zero
        40, 4, // signed: 2 (expanded)
        42, 2, 1, 3, // signed: -1, -2 (packed)
    ];
    let result = decoder.decode(&buffer).unwrap();
    let expected = record(vec![
        ("flag", Val::Bool(true)),
        ("fixed", Val::U32(0x12345678)),
        ("big", Val::S64(-2)),
        (
            "kinds",
            Val::List(vec![
                Val::Enum(String::from("one")),
                Val::Enum(String::from("zero")),
                Val::Enum(String::from("zero")),
            ]),
        ),
        ("signed", Val::List(vec![Val::S32(2), Val::S32(-1), Val::S32(-2)])),
    ]);
    assert_eq!(result, expected);
}

#[test]
fn decode_skips_unknown_fields() {
    let decoder = decoder(vec![scalar("count", 2, INT32_IMPLICIT)]);
    // Field 1 (varint), field 3 (length-delimited), field 4 (32-bit), then count = 7.
    let buffer: Vec<u8> = vec![8, 150, 1, 26, 2, 0, 0, 37, 1, 2, 3, 4, 16, 7];
    let result = decoder.decode(&buffer).unwrap();
    assert_eq!(result, record(vec![("count", Val::S32(7))]));
}

#[test]
fn decode_error_statuses() {
    let decoder = decoder(vec![scalar("count", 2, INT32_IMPLICIT)]);
    // A varint that never ends.
    let status = decoder.decode(&[16, 255, 255]).unwrap_err();
    assert_eq!(status.code(), Code::Internal);
    assert_eq!(status.message(), "decode-error");
}

#[test]
fn decode_error_traceback() {
    let field = request(vec![compound("inner", 3, MESSAGE, vec![scalar("s", 1, STRING_UTF8_IMPLICIT)])]);
    let merger = Merger::message_inner(&field).unwrap();
    let mut value = record(vec![("inner", Val::Option(None))]);
    // inner { s: <invalid UTF-8> }
    let buffer: Vec<u8> = vec![26, 3, 10, 1, 255];
    let error = merger
        .merge(WireType::LengthDelimited, buffer.len() as u32, &buffer, 0, &mut value)
        .unwrap_err();
    assert_eq!(error.message, "Invalid UTF-8");
    assert_eq!(error.traceback, vec![DecodeLevel::Field(1), DecodeLevel::Field(3)]);
    assert_eq!(error.describe(), "DecodeError(.3.1): Invalid UTF-8");
}

#[test]
fn decode_wire_type_mismatch() {
    let field = request(vec![scalar("count", 2, INT32_IMPLICIT)]);
    let merger = Merger::message_inner(&field).unwrap();
    let mut value = record(vec![("count", Val::S32(0))]);
    // Field 2 sent as length-delimited.
    let buffer: Vec<u8> = vec![18, 0];
    let error = merger
        .merge(WireType::LengthDelimited, 2, &buffer, 0, &mut value)
        .unwrap_err();
    assert_eq!(error.describe(), "DecodeError(.2): Wire type should be varint");
}

#[test]
fn compile_errors() {
    let no_coding = request(vec![Field { number: 1, name: String::from("x"), coding: None, subfields: Vec::new() }]);
    let status = Merger::message_inner(&no_coding).unwrap_err();
    assert_eq!(status.message(), "decoder-subfield-no-coding");
    assert_eq!(status.code(), Code::Internal);

    let bad_scalar = request(vec![scalar("x", 1, 64)]);
    assert_eq!(Merger::message_inner(&bad_scalar).unwrap_err().message(), "bad-scalar-coding");

    let bad_compound = request(vec![compound("x", 1, 7, Vec::new())]);
    assert_eq!(Merger::message_inner(&bad_compound).unwrap_err().message(), "bad-compound-coding");

    let no_default = request(vec![compound("x", 1, ENUM_IMPLICIT, vec![variant("one", 1)])]);
    let status = Merger::message_inner(&no_default).unwrap_err();
    assert_eq!(status.message(), "Enum must have a default value");
    assert_eq!(status.code(), Code::FailedPrecondition);

    let implicit_variant = request(vec![compound("x", 0, ONEOF, vec![scalar("a", 1, BOOL_IMPLICIT)])]);
    assert_eq!(
        Merger::message_inner(&implicit_variant).unwrap_err().message(),
        "decoder-non-explicit-oneof-variant"
    );
}
