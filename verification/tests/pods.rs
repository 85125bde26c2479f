use workd::runtime::names::Name;
use workd::runtime::pods::{method_route, Codec, MethodMetadata};
use workd::runtime::schema::{Coding, Field};
use workd::runtime::value::Val;

const COMPONENT_NAME: &str = "1234567890abcdef1234567890abcdef:package.Service@1.2.3";
const STRING_UTF8_IMPLICIT: i32 = 4;

fn message(subfields: Vec<Field>) -> Field {
    Field { number: 0, name: String::new(), coding: None, subfields }
}

fn greeting() -> Field {
    message(vec![Field {
        number: 1,
        name: String::from("greeting"),
        coding: Some(Coding::ScalarCoding(STRING_UTF8_IMPLICIT)),
        subfields: Vec::new(),
    }])
}

fn broken() -> Field {
    message(vec![Field { number: 1, name: String::from("x"), coding: None, subfields: Vec::new() }])
}

fn method(request: Option<Field>, response: Option<Field>) -> MethodMetadata {
    MethodMetadata { function: String::from("say-hello"), request, response }
}

#[test]
fn codec_decodes_requests_and_encodes_responses() {
    let component = Name::parse(COMPONENT_NAME).component().unwrap();
    let codec = Codec::new(&greeting(), &greeting(), &component).unwrap();
    assert_eq!(codec.decoder.component, component);
    assert_eq!(codec.encoder.component, component);
    let value = codec.decoder.decode(&[0x0a, 0x02, b'h', b'i']).unwrap();
    assert_eq!(value, Val::Record(vec![(String::from("greeting"), Val::String(b"hi".to_vec()))]));
    let mut bytes = Vec::new();
    codec.encoder.encode(&value, &mut bytes).unwrap();
    assert_eq!(bytes, vec![0x0a, 0x02, b'h', b'i']);
    assert_eq!(
        Codec::new(&broken(), &greeting(), &component).unwrap_err().message(),
        "decoder-subfield-no-coding"
    );
}

#[test]
fn method_routes_need_both_shapes() {
    let component = Name::parse(COMPONENT_NAME).component().unwrap();
    let route = method_route(
        "package.Service",
        "SayHello",
        &method(Some(greeting()), Some(greeting())),
        &component,
    )
    .unwrap();
    assert_eq!(route.path, "/package.Service/SayHello");
    assert_eq!(route.function, "say-hello");
    assert_eq!(route.codec.decoder.component, component);
    let error = |m: MethodMetadata| method_route("s", "m", &m, &component).unwrap_err().message();
    assert_eq!(error(method(None, Some(greeting()))), "metadata-missing-request");
    assert_eq!(error(method(None, None)), "metadata-missing-request");
    assert_eq!(error(method(Some(greeting()), None)), "metadata-missing-response");
    assert_eq!(error(method(Some(broken()), Some(greeting()))), "decoder-subfield-no-coding");
}
