use workd::names::Name as WorkName;
use workd::runtime::decode::RequestDecoder;
use workd::runtime::encode::ResponseEncoder;
use workd::runtime::names::{DomainUuid, Name};
use workd::runtime::schema::{Coding, Field};
use workd::runtime::value::Val;

#[test]
fn domain_uuid_text_round_trip() {
    let bytes: [u8; 16] = [0, 1, 2, 3, 0x10, 0x20, 0xff, 0xfe, 7, 8, 9, 10, 11, 12, 13, 14];
    let uuid = DomainUuid::new(&bytes);
    let text = uuid.to_string();
    assert_eq!(text.len(), 32);
    assert_eq!(DomainUuid::parse(&text).unwrap(), uuid);
}

#[test]
fn runtime_pod_name_round_trip() {
    let text = "0123456789abcdef0123456789abcdef:pkg.Svc@2.0.0-rc1#ff";
    let pod = Name::parse(text).pod().unwrap();
    assert_eq!(pod.to_string(), text);
    let again = Name::parse(&pod.to_string()).pod().unwrap();
    assert_eq!(again, pod);
}

#[test]
fn work_names_round_trip() {
    let text = "example.com:some.Service@1.0.0#19AF0";
    let pod = WorkName::parse(text).pod().unwrap();
    assert_eq!(pod.to_string(), text);
    let component = WorkName::parse("example.com:some.Service@1.0.0").full_component().unwrap();
    assert_eq!(
        WorkName::parse(&component.to_string()).full_component().unwrap(),
        component
    );
}

fn scalar_field(name: &str, number: u32, coding: i32) -> Field {
    Field { number, name: String::from(name), coding: Some(Coding::ScalarCoding(coding)), subfields: Vec::new() }
}

#[test]
fn scalar_fields_read_back() {
    // sint32 implicit (20), string explicit (6), fixed64 implicit (52), bytes implicit (0).
    let message = Field {
        number: 0,
        name: String::new(),
        coding: None,
        subfields: vec![
            scalar_field("count", 1, 20),
            scalar_field("label", 2, 6),
            scalar_field("stamp", 7, 52),
            scalar_field("data", 300, 0),
        ],
    };
    let component = Name::parse("0123456789abcdef0123456789abcdef:pkg.Svc@2.0.0").component().unwrap();
    let encoder = ResponseEncoder::new(&message, component.clone()).unwrap();
    let decoder = RequestDecoder::new(&message, component).unwrap();
    let value = Val::Record(vec![
        (String::from("count"), Val::S32(-42)),
        (String::from("label"), Val::Option(Some(Box::new(Val::String(b"hi".to_vec()))))),
        (String::from("stamp"), Val::U64(u64::MAX)),
        (String::from("data"), Val::List(vec![Val::U8(0), Val::U8(255)])),
    ]);
    let mut bytes = Vec::new();
    encoder.encode(&value, &mut bytes).unwrap();
    assert_eq!(decoder.decode(&bytes).unwrap(), value);
}
