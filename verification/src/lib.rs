//! Generation engine for OpenAPI 3.0 documents derived from web-framework
//! route handlers: a route-attribute parser, a doc-comment extractor, an
//! accumulating document generator, and a document-merge engine.

pub mod doc_attr;
pub mod gen;
pub mod http;
pub mod merge;
pub mod openapi3;
pub mod openapi_spec;
pub mod request;
pub mod response;
pub mod route;
pub mod route_attr;
pub mod schema;
pub mod text;
pub mod util;

use vstd::prelude::*;

verus! {

/// A generation-time failure: the document could not be produced.
#[derive(Debug)]
pub struct OpenApiError {
    pub msg: String,
}

impl OpenApiError {
    pub fn new(msg: String) -> (r: Self)
        ensures
            r.msg@ == msg@,
    {
        OpenApiError { msg }
    }
}

} // verus!
