//! gRPC pods: the codec of each method that a component serves, compiled from the
//! component's metadata, and the path under which the method is routed.

use vstd::prelude::*;

use crate::runtime::decode::{compile_message_spec, MessageMerge, RequestDecoder};
use crate::runtime::encode::{message_encoder_spec, MessageEncode, ResponseEncoder};
use crate::runtime::error::{status, Code, Status, StatusView};
use crate::runtime::names::ComponentName;
use crate::runtime::schema::Field;

verus! {

/// A method's request decoder and response encoder.
#[derive(Debug)]
pub struct Codec {
    pub decoder: RequestDecoder,
    pub encoder: ResponseEncoder,
}

/// Whether `codec` is the one compiled from the `request` and `response` messages for
/// `component`.
pub open spec fn compiled_codec(
    codec: Codec,
    request: Field,
    response: Field,
    component: ComponentName,
) -> bool {
    &&& compile_message_spec(request@, MessageMerge::Inner) == Ok::<_, StatusView>(
        codec.decoder.inner@,
    )
    &&& message_encoder_spec(response@, MessageEncode::Inner) == Ok::<_, StatusView>(
        codec.encoder.inner@,
    )
    &&& codec.decoder.component@ == component@
    &&& codec.encoder.component@ == component@
}

/// The error of compiling a codec from `request` and `response`, if any: first the
/// request's, then the response's.
pub open spec fn codec_error(request: Field, response: Field) -> Option<StatusView> {
    match compile_message_spec(request@, MessageMerge::Inner) {
        Err(e) => Some(e),
        Ok(_) => match message_encoder_spec(response@, MessageEncode::Inner) {
            Err(e) => Some(e),
            Ok(_) => None,
        },
    }
}

impl Codec {
    /// Compiles the decoder of `decoder` requests and the encoder of `encoder` responses of
    /// a method of `component`.
    pub fn new(decoder: &Field, encoder: &Field, component: &ComponentName) -> (r: Result<
        Codec,
        Status,
    >)
        ensures
            match codec_error(*decoder, *encoder) {
                Some(e) => r matches Err(s) && s@ == e,
                None => r matches Ok(c) && compiled_codec(c, *decoder, *encoder, *component),
            },
    {
        let decoder = match RequestDecoder::new(decoder, component.duplicate()) {
            Ok(d) => d,
            Err(e) => return Err(e),
        };
        let encoder = match ResponseEncoder::new(encoder, component.duplicate()) {
            Ok(e) => e,
            Err(e) => return Err(e),
        };
        Ok(Codec { decoder, encoder })
    }
}

/// The gRPC metadata of one method of a component.
#[derive(Debug)]
pub struct MethodMetadata {
    /// The component function that serves the method.
    pub function: String,
    /// The shape of the method's requests.
    pub request: Option<Field>,
    /// The shape of the method's responses.
    pub response: Option<Field>,
}

/// A route of a gRPC pod: the HTTP path of a method, the function that serves it, and
/// its codec.
#[derive(Debug)]
pub struct MethodRoute {
    pub path: String,
    pub function: String,
    pub codec: Codec,
}

/// The HTTP path of a gRPC method: `/service/method`.
pub open spec fn method_path(service: Seq<char>, method: Seq<char>) -> Seq<char> {
    seq!['/'] + service + seq!['/'] + method
}

/// The error of routing `method`, if any: a missing request, a missing response, or the
/// error of compiling the codec.
pub open spec fn route_error(method: MethodMetadata) -> Option<StatusView> {
    match (method.request, method.response) {
        (None, _) => Some(status(Code::FailedPrecondition, "metadata-missing-request")),
        (Some(_), None) => Some(status(Code::FailedPrecondition, "metadata-missing-response")),
        (Some(q), Some(p)) => codec_error(q, p),
    }
}

/// The route of the method `name` of `service`, served by a function of `component`: the
/// method must name the shapes of its request and response, and their codec must compile.
pub fn method_route(
    service: &str,
    name: &str,
    method: &MethodMetadata,
    component: &ComponentName,
) -> (r: Result<MethodRoute, Status>)
    ensures
        match route_error(*method) {
            Some(e) => r matches Err(s) && s@ == e,
            None => r matches Ok(route) && route.path@ == method_path(service@, name@)
                && route.function@ == method.function@ && compiled_codec(
                route.codec,
                method.request.unwrap(),
                method.response.unwrap(),
                *component,
            ),
        },
{
    let request = match &method.request {
        Some(q) => q,
        None => return Err(Status::failed_precondition("metadata-missing-request")),
    };
    let response = match &method.response {
        Some(p) => p,
        None => return Err(Status::failed_precondition("metadata-missing-response")),
    };
    let codec = match Codec::new(request, response, component) {
        Ok(c) => c,
        Err(e) => return Err(e),
    };
    let mut path = String::new();
    path.append("/");
    path.append(service);
    path.append("/");
    path.append(name);
    proof {
        reveal_strlit("/");
    }
    assert(path@ =~= method_path(service@, name@));
    Ok(MethodRoute { path, function: method.function.clone(), codec })
}

} // verus!
