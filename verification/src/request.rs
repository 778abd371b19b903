//! Capability traits for request-side types: how a type used in a handler
//! signature contributes parameters and request bodies to the document.

use vstd::prelude::*;

use crate::gen::OpenApiGenerator;
use crate::openapi3::{
    EqClone, MediaTypeObject, Parameter, ParameterModel, PropertyModel, RequestBody,
    SchemaDocument, SchemaModel, StrMap,
};
use crate::OpenApiError;

verus! {

/// How a type bound to a path placeholder is documented.  A path segment
/// cannot be absent, so a path parameter is always required.
pub trait OpenApiFromParam: Sized {
    fn path_parameter(g: &mut OpenApiGenerator, name: String) -> (r: Result<
        Parameter,
        OpenApiError,
    >)
        requires
            old(g).wf(),
        ensures
            final(g).wf(),
            final(g).operations() == old(g).operations(),
            final(g).security() == old(g).security(),
            match r {
                Ok(p) => p.name@ == name@ && p.location@ == "path"@ && p.required == true,
                Err(_) => true,
            },
    ;
}

/// How a type bound to a query placeholder is documented.  An implementation
/// may force `required` off (an optional binding), never on.
pub trait OpenApiFromFormField: Sized {
    fn form_parameter(g: &mut OpenApiGenerator, name: String, required: bool) -> (r: Result<
        Parameter,
        OpenApiError,
    >)
        requires
            old(g).wf(),
        ensures
            final(g).wf(),
            final(g).operations() == old(g).operations(),
            final(g).security() == old(g).security(),
            match r {
                Ok(p) => p.name@ == name@ && p.location@ == "query"@ && (p.required ==> required),
                Err(_) => true,
            },
    ;
}

/// How a type bound to the request body is documented.
pub trait OpenApiFromData: Sized {
    fn request_body(g: &mut OpenApiGenerator) -> (r: Result<RequestBody, OpenApiError>)
        requires
            old(g).wf(),
        ensures
            final(g).wf(),
            final(g).operations() == old(g).operations(),
            final(g).security() == old(g).security(),
            match r {
                Ok(rb) => rb.content.wf(),
                Err(_) => true,
            },
    ;
}

/// How a type bound to a trailing multi-segment placeholder is documented.
pub trait OpenApiFromSegments: Sized {
    fn path_multi_parameter(g: &mut OpenApiGenerator, name: String) -> (r: Result<
        Parameter,
        OpenApiError,
    >)
        requires
            old(g).wf(),
        ensures
            final(g).wf(),
            final(g).operations() == old(g).operations(),
            final(g).security() == old(g).security(),
            match r {
                Ok(p) => p.name@ == name@ && p.required == true,
                Err(_) => true,
            },
    ;
}

/// What a request guard contributes to an operation.
pub enum RequestHeaderInput {
    /// The guard leaves no trace in the document.
    NoInput,
    /// The guard reads one parameter, usually a header.
    Parameter(Parameter),
    /// The guard demands a security scheme.
    Security(String, crate::openapi3::SecurityScheme, Vec<String>),
}

/// How a request guard is documented.  Implementations belong to the
/// application's own guards.
pub trait OpenApiFromRequest: Sized {
    fn from_request_input(g: &mut OpenApiGenerator, name: String, required: bool) -> (r: Result<
        RequestHeaderInput,
        OpenApiError,
    >)
        requires
            old(g).wf(),
        ensures
            final(g).wf(),
            final(g).operations() == old(g).operations(),
        ;
}

impl OpenApiFromParam for i32 {
    fn path_parameter(g: &mut OpenApiGenerator, name: String) -> (r: Result<
        Parameter,
        OpenApiError,
    >) {
        let schema = g.json_schema::<i32>();
        Ok(make_path_parameter(name, schema))
    }
}

impl OpenApiFromParam for String {
    fn path_parameter(g: &mut OpenApiGenerator, name: String) -> (r: Result<
        Parameter,
        OpenApiError,
    >) {
        let schema = g.json_schema::<String>();
        Ok(make_path_parameter(name, schema))
    }
}

/// A required path parameter carrying the given schema.
fn make_path_parameter(name: String, schema: SchemaDocument) -> (p: Parameter)
    ensures
        p.name@ == name@,
        p.location@ == "path"@,
        p.required == true,
        p.schema.deep_view() == schema.deep_view(),
{
    Parameter {
        name,
        location: String::from_str("path"),
        description: None,
        required: true,
        deprecated: false,
        allow_empty_value: false,
        schema,
    }
}

impl OpenApiFromFormField for i32 {
    fn form_parameter(g: &mut OpenApiGenerator, name: String, required: bool) -> (r: Result<
        Parameter,
        OpenApiError,
    >) {
        let schema = g.json_schema::<i32>();
        Ok(make_query_parameter(name, required, schema))
    }
}

impl OpenApiFromFormField for String {
    fn form_parameter(g: &mut OpenApiGenerator, name: String, required: bool) -> (r: Result<
        Parameter,
        OpenApiError,
    >) {
        let schema = g.json_schema::<String>();
        Ok(make_query_parameter(name, required, schema))
    }
}

impl<T: OpenApiFromFormField> OpenApiFromFormField for Option<T> {
    /// An optional binding: the parameter is never required.
    fn form_parameter(g: &mut OpenApiGenerator, name: String, _required: bool) -> (r: Result<
        Parameter,
        OpenApiError,
    >) {
        T::form_parameter(g, name, false)
    }
}

/// A query parameter carrying the given schema.
fn make_query_parameter(name: String, required: bool, schema: SchemaDocument) -> (p: Parameter)
    ensures
        p.name@ == name@,
        p.location@ == "query"@,
        p.required == required,
        p.schema.deep_view() == schema.deep_view(),
{
    Parameter {
        name,
        location: String::from_str("query"),
        description: None,
        required,
        deprecated: false,
        allow_empty_value: false,
        schema,
    }
}

impl OpenApiFromSegments for String {
    fn path_multi_parameter(g: &mut OpenApiGenerator, name: String) -> (r: Result<
        Parameter,
        OpenApiError,
    >) {
        let schema = g.json_schema::<String>();
        Ok(make_path_parameter(name, schema))
    }
}

/// A request body under one media type, carrying the given schema.
fn body_with_media_type(media_type: String, schema: SchemaDocument, required: bool) -> (rb:
    RequestBody)
    ensures
        rb.content.wf(),
        rb.required == required,
        rb.description is None,
        rb.content@.len() == 1,
        rb.content@[0].0 == media_type@,
        rb.content@[0].1 == (crate::openapi3::MediaTypeModel {
            schema: Some(schema.deep_view()),
        }),
{
    let mut content: StrMap<MediaTypeObject> = StrMap::new();
    proof {
        crate::openapi3::lemma_assoc_map_contains(content@, media_type@);
    }
    let ghost s0 = schema.deep_view();
    content.insert_keep(media_type, MediaTypeObject { schema: Some(schema) });
    proof {
        assert(content@[0].1 =~~= (crate::openapi3::MediaTypeModel { schema: Some(s0) }));
    }
    RequestBody { description: None, content, required }
}

impl OpenApiFromData for String {
    fn request_body(g: &mut OpenApiGenerator) -> (r: Result<RequestBody, OpenApiError>) {
        let schema = g.json_schema::<String>();
        Ok(body_with_media_type(String::from_str("application/octet-stream"), schema, true))
    }
}

impl OpenApiFromData for Vec<u8> {
    fn request_body(g: &mut OpenApiGenerator) -> (r: Result<RequestBody, OpenApiError>) {
        let schema = g.json_schema::<Vec<u8>>();
        Ok(body_with_media_type(String::from_str("application/octet-stream"), schema, true))
    }
}

impl<T: OpenApiFromData> OpenApiFromData for Option<T> {
    /// An optional body: never required.
    fn request_body(g: &mut OpenApiGenerator) -> (r: Result<RequestBody, OpenApiError>) {
        match T::request_body(g) {
            Ok(rb) => {
                let RequestBody { description, content, required: _ } = rb;
                Ok(RequestBody { description, content, required: false })
            },
            Err(e) => Err(e),
        }
    }
}

impl<T: OpenApiFromRequest> OpenApiFromRequest for Option<T> {
    /// An optional guard: whatever the inner guard contributes, not
    /// required.
    fn from_request_input(g: &mut OpenApiGenerator, name: String, _required: bool) -> (r: Result<
        RequestHeaderInput,
        OpenApiError,
    >) {
        T::from_request_input(g, name, false)
    }
}

/// A parameter derived from one property of an object schema: the
/// struct-level required flag is inherited, except that a nullable property
/// is never required.
pub open spec fn param_from_property(p: PropertyModel, required: bool) -> ParameterModel {
    ParameterModel {
        name: p.name,
        location: "query"@,
        description: p.description,
        required: required && !p.nullable,
        deprecated: false,
        allow_empty_value: false,
        schema: SchemaModel {
            nullable: p.nullable,
            description: p.description,
            properties: Seq::empty(),
            raw: p.raw,
        },
    }
}

/// A parameter carrying a whole schema: required as asked, except that a
/// nullable schema is never required.
pub open spec fn param_from_schema_model(
    s: SchemaModel,
    name: Seq<char>,
    required: bool,
) -> ParameterModel {
    ParameterModel {
        name: name,
        location: "query"@,
        description: s.description,
        required: required && !s.nullable,
        deprecated: false,
        allow_empty_value: false,
        schema: s,
    }
}

/// The parameters a form schema flattens into: one per top-level property
/// when the schema is an object with properties, else a single parameter
/// named after the binding.
pub open spec fn nested_params_model(s: SchemaModel, name: Seq<char>, required: bool) -> Seq<
    ParameterModel,
> {
    if s.properties.len() > 0 {
        s.properties.map_values(|p: PropertyModel| param_from_property(p, required))
    } else {
        seq![param_from_schema_model(s, name, required)]
    }
}

/// Builds one documented parameter from a schema, per
/// `param_from_schema_model`: a nullable schema forces `required` off.
pub fn parameter_from_schema(schema: SchemaDocument, name: String, required: bool) -> (p:
    Parameter)
    ensures
        p.deep_view() == param_from_schema_model(schema.deep_view(), name@, required),
{
    let is_nullable = schema.nullable;
    let description = schema.description.eq_clone();
    let p = Parameter {
        name,
        location: String::from_str("query"),
        description,
        required: required && !is_nullable,
        deprecated: false,
        allow_empty_value: false,
        schema,
    };
    proof {
        assert(p.deep_view() =~~= param_from_schema_model(p.schema.deep_view(), p.name@, required));
    }
    p
}

/// Flattens a form schema into its documented parameters, per
/// `nested_params_model`: an object schema yields one query parameter per
/// top-level property, inheriting the struct-level required flag except
/// where the property is nullable; any other schema yields one parameter
/// under the binding's own name.
pub fn nested_form_parameters_from_schema(
    schema: &SchemaDocument,
    name: String,
    required: bool,
) -> (r: Vec<Parameter>)
    ensures
        r.deep_view() == nested_params_model(schema.deep_view(), name@, required),
{
    if schema.properties.len() > 0 {
        let mut params: Vec<Parameter> = Vec::new();
        let mut i: usize = 0;
        while i < schema.properties.len()
            invariant
                i <= schema.properties@.len(),
                params@.len() == i,
                forall|k: int|
                    0 <= k < i ==> params.deep_view()[k] == param_from_property(
                        schema.properties.deep_view()[k],
                        required,
                    ),
            decreases schema.properties.len() - i,
        {
            let prop = &schema.properties[i];
            let p = Parameter {
                name: prop.name.eq_clone(),
                location: String::from_str("query"),
                description: prop.description.eq_clone(),
                required: required && !prop.nullable,
                deprecated: false,
                allow_empty_value: false,
                schema: SchemaDocument {
                    nullable: prop.nullable,
                    description: prop.description.eq_clone(),
                    properties: Vec::new(),
                    raw: prop.raw.eq_clone(),
                },
            };
            proof {
                assert(schema.properties.deep_view()[i as int] == schema.properties@[
                    i as int].deep_view());
                assert(p.deep_view() =~~= param_from_property(
                    schema.properties.deep_view()[i as int],
                    required,
                ));
            }
            let ghost d0 = params.deep_view();
            let ghost t0 = params@;
            params.push(p);
            proof {
                assert forall|k: int| 0 <= k < i + 1 implies params.deep_view()[k]
                    == param_from_property(schema.properties.deep_view()[k], required) by {
                    assert(params.deep_view()[k] == params@[k].deep_view());
                    if k < i {
                        assert(d0[k] == param_from_property(
                            schema.properties.deep_view()[k],
                            required,
                        ));
                        assert(d0[k] == t0[k].deep_view());
                        assert(params@[k] == t0[k]);
                    }
                }
            }
            i = i + 1;
        }
        proof {
            assert(params.deep_view() =~~= nested_params_model(schema.deep_view(), name@, required));
        }
        params
    } else {
        let mut params: Vec<Parameter> = Vec::new();
        params.push(parameter_from_schema(schema.eq_clone(), name, required));
        proof {
            assert(params.deep_view() =~~= nested_params_model(schema.deep_view(), name@, required));
        }
        params
    }
}

/// Given a type with a JSON schema, the parameters its form binding
/// flattens into; the flattening itself follows `nested_params_model`.
pub fn get_nested_form_parameters<T: schemars::JsonSchema>(
    g: &mut OpenApiGenerator,
    name: String,
    required: bool,
) -> (r: Vec<Parameter>)
    requires
        old(g).wf(),
    ensures
        final(g).wf(),
        final(g).operations() == old(g).operations(),
        final(g).security() == old(g).security(),
        final(g).schema_cache() == old(g).schema_cache(),
        exists|s: SchemaModel| r.deep_view() == nested_params_model(s, name@, required),
{
    let schema = g.json_schema_no_ref::<T>();
    let ghost s0 = schema.deep_view();
    let r = nested_form_parameters_from_schema(&schema, name, required);
    proof {
        assert(r.deep_view() == nested_params_model(s0, name@, required));
    }
    r
}

} // verus!
