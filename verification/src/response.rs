//! Capability trait for response types: how a handler's return type
//! contributes responses to the document.

use vstd::prelude::*;

use crate::gen::OpenApiGenerator;
use crate::merge::merge_assoc;
use crate::openapi3::{
    lemma_assoc_map_contains, EqClone, MediaTypeObject, Response, Responses, SchemaDocument,
    StrMap,
};
use crate::OpenApiError;

verus! {

/// How a handler's return type is documented as responses.
pub trait OpenApiResponderInner: Sized {
    fn responses(g: &mut OpenApiGenerator) -> (r: Result<Responses, OpenApiError>)
        requires
            old(g).wf(),
        ensures
            final(g).wf(),
            final(g).operations() == old(g).operations(),
            final(g).security() == old(g).security(),
            match r {
                Ok(rs) => rs.wf(),
                Err(_) => true,
            },
    ;
}

/// A responses set holding one status code with the given response.
pub fn single_response(status: String, response: Response) -> (r: Responses)
    ensures
        r.wf(),
        r.responses@.len() == 1,
        r.responses@[0].0 == status@,
        r.responses@[0].1 == response.deep_view(),
{
    let mut map: StrMap<Response> = StrMap::new();
    proof {
        lemma_assoc_map_contains(map@, status@);
    }
    map.insert_keep(status, response);
    Responses { responses: map }
}

/// A response carrying one media type with the given schema.
pub fn response_with_media_type(media_type: String, schema: Option<SchemaDocument>) -> (r:
    Response)
    ensures
        r.content.wf(),
        r.description@.len() == 0,
        r.content@.len() == 1,
        r.content@[0].0 == media_type@,
        r.content@[0].1 == (crate::openapi3::MediaTypeModel { schema: schema.deep_view() }),
{
    let mut content: StrMap<MediaTypeObject> = StrMap::new();
    proof {
        lemma_assoc_map_contains(content@, media_type@);
    }
    let ghost s0 = schema.deep_view();
    content.insert_keep(media_type, MediaTypeObject { schema });
    proof {
        assert(content@[0].1 =~~= (crate::openapi3::MediaTypeModel { schema: s0 }));
    }
    Response { description: String::new(), content }
}

/// The union of two responses sets by status code; the first wins on a
/// collision.
pub fn produce_any_responses(r1: Responses, r2: &Responses) -> (r: Responses)
    requires
        r1.wf(),
    ensures
        r.wf(),
        r.responses@ == merge_assoc(r1.responses@, r2.responses@),
{
    let mut out = r1;
    let _ = crate::merge::merge_map(&mut out.responses, &r2.responses, "responses");
    out
}

impl OpenApiResponderInner for () {
    /// A unit result: plain success.
    fn responses(g: &mut OpenApiGenerator) -> (r: Result<Responses, OpenApiError>) {
        Ok(single_response(String::from_str("200"), Response::empty()))
    }
}

impl OpenApiResponderInner for String {
    /// Plain text.
    fn responses(g: &mut OpenApiGenerator) -> (r: Result<Responses, OpenApiError>) {
        let schema = g.json_schema::<String>();
        Ok(
            single_response(
                String::from_str("200"),
                response_with_media_type(String::from_str("text/plain"), Some(schema)),
            ),
        )
    }
}

impl OpenApiResponderInner for Vec<u8> {
    /// Raw bytes.
    fn responses(g: &mut OpenApiGenerator) -> (r: Result<Responses, OpenApiError>) {
        let schema = g.json_schema::<Vec<u8>>();
        Ok(
            single_response(
                String::from_str("200"),
                response_with_media_type(
                    String::from_str("application/octet-stream"),
                    Some(schema),
                ),
            ),
        )
    }
}

#[verifier::external_type_specification]
#[verifier::external_body]
pub struct ExIoError(std::io::Error);

impl OpenApiResponderInner for std::io::Error {
    /// An input or output failure surfaces as a server error.
    fn responses(g: &mut OpenApiGenerator) -> (r: Result<Responses, OpenApiError>) {
        Ok(single_response(String::from_str("500"), Response::empty()))
    }
}

impl<T: OpenApiResponderInner> OpenApiResponderInner for Option<T> {
    /// An absent value surfaces as not found, beside the inner responses.
    fn responses(g: &mut OpenApiGenerator) -> (r: Result<Responses, OpenApiError>) {
        match T::responses(g) {
            Ok(inner) => {
                let extra = single_response(String::from_str("404"), Response::empty());
                Ok(produce_any_responses(inner, &extra))
            },
            Err(e) => Err(e),
        }
    }
}

impl<A: OpenApiResponderInner, B: OpenApiResponderInner> OpenApiResponderInner for Result<A, B> {
    /// Either side's responses, the success side winning a status collision.
    fn responses(g: &mut OpenApiGenerator) -> (r: Result<Responses, OpenApiError>) {
        match A::responses(g) {
            Ok(ok_responses) => match B::responses(g) {
                Ok(err_responses) => Ok(produce_any_responses(ok_responses, &err_responses)),
                Err(e) => Err(e),
            },
            Err(e) => Err(e),
        }
    }
}

} // verus!
