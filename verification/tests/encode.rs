use workd::runtime::decode::RequestDecoder;
use workd::runtime::encode::{EncodeLevel, Encoder, ResponseEncoder};
use workd::runtime::error::Code;
use workd::runtime::names::Name;
use workd::runtime::schema::{Coding, Field, Presence, ScalarCoding, ScalarType};
use workd::runtime::value::Val;

const COMPONENT_NAME: &str = "1234567890abcdef1234567890abcdef:package.Service@1.2.3";

const BYTES_IMPLICIT: i32 = 0;
const BYTES_PACKED: i32 = 1;
const BYTES_EXPLICIT: i32 = 2;
const BYTES_EXPANDED: i32 = 3;
const STRING_UTF8_EXPANDED: i32 = 7;
const BOOL_IMPLICIT: i32 = 12;
const BOOL_EXPLICIT: i32 = 14;
const INT32_IMPLICIT: i32 = 16;
const SINT32_IMPLICIT: i32 = 20;
const FIXED32_PACKED: i32 = 33;
const INT64_PACKED: i32 = 37;
const SINT64_EXPANDED: i32 = 43;
const FLOAT_PACKED: i32 = 57;
const FLOAT_IMPLICIT: i32 = 56;

const ENUM_IMPLICIT: i32 = 0;
const ENUM_PACKED: i32 = 1;
const MESSAGE: i32 = 4;
const ONEOF: i32 = 6;

fn scalar(name: &str, number: u32, coding: i32) -> Field {
    Field { name: String::from(name), number, coding: Some(Coding::ScalarCoding(coding)), subfields: Vec::new() }
}

fn compound(name: &str, number: u32, coding: i32, subfields: Vec<Field>) -> Field {
    Field { name: String::from(name), number, coding: Some(Coding::CompoundCoding(coding)), subfields }
}

fn variant(name: &str, number: u32) -> Field {
    Field { name: String::from(name), number, coding: None, subfields: Vec::new() }
}

fn response(subfields: Vec<Field>) -> Field {
    Field { number: 0, name: String::new(), coding: None, subfields }
}

fn encoder(subfields: Vec<Field>) -> ResponseEncoder {
    let component = Name::parse(COMPONENT_NAME).component().unwrap();
    ResponseEncoder::new(&response(subfields), component).unwrap()
}

fn encode(subfields: Vec<Field>, value: Val) -> Vec<u8> {
    let mut buffer = Vec::new();
    encoder(subfields).encode(&value, &mut buffer).unwrap();
    buffer
}

fn record(fields: Vec<(&str, Val)>) -> Val {
    Val::Record(fields.into_iter().map(|(name, value)| (String::from(name), value)).collect())
}

fn some(value: Val) -> Val {
    Val::Option(Some(Box::new(value)))
}

fn string(s: &str) -> Val {
    Val::String(s.as_bytes().to_vec())
}

fn deep_fields() -> Vec<Field> {
    vec![
        compound("x", 1, MESSAGE, vec![scalar("a", 1, SINT32_IMPLICIT)]),
        compound("y", 2, MESSAGE, vec![
            compound("aa", 30, MESSAGE, vec![
                scalar("strings", 1, STRING_UTF8_EXPANDED),
                compound("variants", 0, ONEOF, vec![
                    compound("another", 5, MESSAGE, vec![scalar("aaa", 1, FLOAT_PACKED)]),
                    scalar("unused", 6, BOOL_EXPLICIT),
                ]),
            ]),
            scalar("bb", 3, INT64_PACKED),
        ]),
    ]
}

fn deep_value() -> Val {
    record(vec![
        ("x", some(record(vec![("a", Val::S32(-5))]))),
        ("y", some(record(vec![
            ("aa", some(record(vec![
                ("strings", Val::List(vec![string("test"), string("ing")])),
                ("variants", some(Val::Variant(
                    String::from("another"),
                    Some(Box::new(record(vec![(
                        "aaa",
                        Val::List(vec![Val::Float32(0.0f32.to_bits()), Val::Float32((-1.0f32).to_bits())]),
                    )]))),
                ))),
            ]))),
            ("bb", Val::List(vec![Val::S64(127), Val::S64(128), Val::S64(2097152), Val::S64(0)])),
        ]))),
    ])
}

const DEEP_BYTES: [u8; 42] = [
    10, 2, 8, 9, 18, 36, 242, 1, 23, 10, 4, 116, 101, 115, 116, 10, 3, 105, 110, 103, 42, 10, 10, 8,
    0, 0, 0, 0, 0, 0, 128, 191, 26, 8, 127, 128, 1, 128, 128, 128, 1, 0,
];

#[test]
fn encode_messages_deep_nested_lengths() {
    assert_eq!(encode(deep_fields(), deep_value()), DEEP_BYTES.to_vec());
}

#[test]
fn encode_bytes_implicit() {
    let value = record(vec![(
        "bytes-implicit",
        Val::List(vec![Val::U8(1), Val::U8(2), Val::U8(3), Val::U8(4), Val::U8(5)]),
    )]);
    assert_eq!(encode(vec![scalar("bytes-implicit", 12, BYTES_IMPLICIT)], value), vec![98, 5, 1, 2, 3, 4, 5]);
}

#[test]
fn encode_bytes_implicit_empty() {
    let value = record(vec![("bytes-implicit-empty", Val::List(Vec::new()))]);
    assert_eq!(encode(vec![scalar("bytes-implicit-empty", 12, BYTES_IMPLICIT)], value), Vec::<u8>::new());
}

#[test]
fn encode_bytes_explicit() {
    let value = record(vec![("bytes-explicit", some(Val::List(Vec::new())))]);
    assert_eq!(encode(vec![scalar("bytes-explicit", 1, BYTES_EXPLICIT)], value), vec![10, 0]);
}

#[test]
fn encode_bytes_repeated() {
    let value = record(vec![(
        "bytes-repeated",
        Val::List(vec![Val::List(vec![Val::U8(255), Val::U8(127)]), Val::List(Vec::new())]),
    )]);
    assert_eq!(encode(vec![scalar("bytes-repeated", 1, BYTES_EXPANDED)], value), vec![10, 2, 255, 127, 10, 0]);
}

#[test]
fn encode_scalars_and_enums() {
    let fields = vec![
        scalar("flag", 1, BOOL_IMPLICIT),
        scalar("count", 2, INT32_IMPLICIT),
        scalar("words", 3, FIXED32_PACKED),
        scalar("deltas", 4, SINT64_EXPANDED),
        compound("kind", 5, ENUM_IMPLICIT, vec![variant("zero", 0), variant("one", 1)]),
        compound("kinds", 6, ENUM_PACKED, vec![variant("zero", 0), variant("one", 1)]),
        scalar("ratio", 7, FLOAT_IMPLICIT),
    ];
    let value = record(vec![
        ("flag", Val::Bool(true)),
        ("count", Val::S32(-1)),
        ("words", Val::List(vec![Val::U32(0x12345678)])),
        ("deltas", Val::List(vec![Val::S64(-2), Val::S64(2)])),
        ("kind", Val::Enum(String::from("one"))),
        ("kinds", Val::List(vec![Val::Enum(String::from("zero")), Val::Enum(String::from("one"))])),
        ("ratio", Val::Float32((-0.0f32).to_bits())),
    ]);
    let expected: Vec<u8> = vec![
        8, 1, // flag
        16, 255, 255, 255, 255, 255, 255, 255, 255, 255, 1, // count: -1 sign-extended
        26, 4, 0x78, 0x56, 0x34, 0x12, // words, packed
        32, 3, 32, 4, // deltas, zig-zag expanded
        40, 1, // kind
        50, 2, 0, 1, // kinds, packed
        // ratio: negative zero is the default, so it is omitted
    ];
    assert_eq!(encode(fields, value), expected);
}

#[test]
fn encode_defaults_are_omitted() {
    let fields = vec![
        scalar("flag", 1, BOOL_IMPLICIT),
        scalar("count", 2, INT32_IMPLICIT),
        compound("kind", 5, ENUM_IMPLICIT, vec![variant("zero", 0), variant("one", 1)]),
        compound("inner", 6, MESSAGE, vec![scalar("a", 1, SINT32_IMPLICIT)]),
    ];
    let value = record(vec![
        ("flag", Val::Bool(false)),
        ("count", Val::S32(0)),
        ("kind", Val::Enum(String::from("zero"))),
        ("inner", Val::Option(None)),
    ]);
    assert_eq!(encode(fields, value), Vec::<u8>::new());
}

#[test]
fn encode_then_decode() {
    let bytes = encode(deep_fields(), deep_value());
    let component = Name::parse(COMPONENT_NAME).component().unwrap();
    let decoder = RequestDecoder::new(&response(deep_fields()), component).unwrap();
    assert_eq!(decoder.decode(&bytes).unwrap(), deep_value());
}

#[test]
fn encode_error_statuses() {
    let encoder = encoder(vec![scalar("count", 2, INT32_IMPLICIT)]);
    let mut buffer = Vec::new();
    let status = encoder.encode(&record(vec![("count", Val::U32(1))]), &mut buffer).unwrap_err();
    assert_eq!(status.code(), Code::Internal);
    assert_eq!(status.message(), "encode-error");
}

#[test]
fn encode_error_traceback() {
    let fields = response(vec![compound("inner", 3, MESSAGE, vec![scalar("count", 1, INT32_IMPLICIT)])]);
    let encoder = Encoder::message_inner(&fields).unwrap();
    let value = record(vec![("inner", some(record(vec![("count", Val::Bool(true))])))]);
    let mut lengths = Vec::new();
    let error = encoder.length(&value, &mut lengths).unwrap_err();
    assert_eq!(error.message, "Int32 field is not S32");
    assert_eq!(error.traceback, vec![EncodeLevel::Field(String::from("count")), EncodeLevel::Field(String::from("inner"))]);
    assert_eq!(error.describe(), "EncodeError(.inner.count): Int32 field is not S32");
}

#[test]
fn encode_unknown_field_and_packed_bytes() {
    let encoder = Encoder::message_inner(&response(vec![scalar("count", 2, INT32_IMPLICIT)])).unwrap();
    let mut lengths = Vec::new();
    let error = encoder.length(&record(vec![("other", Val::S32(1))]), &mut lengths).unwrap_err();
    assert_eq!(error.describe(), "EncodeError(.other): Unexpected field name");

    let encoder = Encoder::message_inner(&response(vec![scalar("data", 2, BYTES_PACKED)])).unwrap();
    let mut lengths = Vec::new();
    let error = encoder.length(&record(vec![("data", Val::List(Vec::new()))]), &mut lengths).unwrap_err();
    assert_eq!(error.message, "Bytes fields cannot be packed");
}

#[test]
fn encode_compile_errors() {
    let implicit_variant = response(vec![compound("x", 0, ONEOF, vec![scalar("a", 1, BOOL_IMPLICIT)])]);
    assert_eq!(Encoder::message_inner(&implicit_variant).unwrap_err().message(), "oneof-subfield-non-explicit");
    let no_coding = response(vec![variant("x", 1)]);
    assert_eq!(Encoder::message_inner(&no_coding).unwrap_err().message(), "encoder-subfield-no-coding");
}

#[test]
fn packed_bytes_and_strings_write_nothing() {
    for (ty, message) in [
        (ScalarType::Bytes, "Bytes fields cannot be packed"),
        (ScalarType::StringUtf8, "String fields cannot be packed"),
        (ScalarType::StringPermissive, "String fields cannot be packed"),
    ] {
        let encoder = Encoder::scalar(ScalarCoding { ty, presence: Presence::Packed }, 3);
        let value = Val::List(vec![Val::List(vec![Val::U8(1)])]);
        let mut lengths = vec![7u32];
        let error = encoder.length(&value, &mut lengths).unwrap_err();
        assert_eq!(error.message, message);
        assert_eq!(lengths, vec![7u32]);
        let mut buf = vec![9u8];
        let error = encoder.encode(&value, &mut lengths, &mut buf).unwrap_err();
        assert_eq!(error.message, message);
        assert_eq!(lengths, vec![7u32]);
        assert_eq!(buf, vec![9u8]);
    }
}
