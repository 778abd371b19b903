//! Tests specifically for request module trait implementations

use rocket_okapi::gen::{OpenApiGenerator, OpenApiSettings};
use rocket_okapi::request::{
    get_nested_form_parameters, OpenApiFromData, OpenApiFromFormField, OpenApiFromParam,
    OpenApiFromSegments,
};

#[test]
fn test_openapi_from_param_i32() {
    let mut gen = OpenApiGenerator::new(&OpenApiSettings::new());
    let p = <i32 as OpenApiFromParam>::path_parameter(&mut gen, "id".to_owned()).unwrap();
    assert_eq!(p.name, "id");
    assert_eq!(p.location, "path");
    assert!(p.required);
}

#[test]
fn test_openapi_from_form_field_i32() {
    let mut gen = OpenApiGenerator::new(&OpenApiSettings::new());
    let p =
        <i32 as OpenApiFromFormField>::form_parameter(&mut gen, "page".to_owned(), true).unwrap();
    assert_eq!(p.name, "page");
    assert_eq!(p.location, "query");
    assert!(p.required);
}

struct MyForm {
    #[allow(dead_code)]
    id: i32,
    #[allow(dead_code)]
    name: Option<String>,
}

impl schemars::JsonSchema for MyForm {
    fn schema_name() -> std::borrow::Cow<'static, str> {
        std::borrow::Cow::Borrowed("MyForm")
    }

    fn json_schema(_generator: &mut schemars::SchemaGenerator) -> schemars::Schema {
        let mut id_schema = serde_json::Map::new();
        id_schema.insert(
            "type".to_owned(),
            serde_json::Value::String("integer".to_owned()),
        );
        let mut name_schema = serde_json::Map::new();
        name_schema.insert(
            "type".to_owned(),
            serde_json::Value::String("string".to_owned()),
        );
        name_schema.insert("nullable".to_owned(), serde_json::Value::Bool(true));
        let mut props = serde_json::Map::new();
        props.insert("id".to_owned(), serde_json::Value::Object(id_schema));
        props.insert("name".to_owned(), serde_json::Value::Object(name_schema));
        let mut obj = serde_json::Map::new();
        obj.insert(
            "type".to_owned(),
            serde_json::Value::String("object".to_owned()),
        );
        obj.insert("properties".to_owned(), serde_json::Value::Object(props));
        schemars::Schema::try_from(serde_json::Value::Object(obj)).unwrap()
    }
}

#[test]
fn test_get_nested_form_parameters() {
    let mut gen = OpenApiGenerator::new(&OpenApiSettings::new());
    let params = get_nested_form_parameters::<MyForm>(&mut gen, "myform".to_owned(), true);
    // There should be two parameters: id and name
    assert!(params.iter().any(|p| p.name == "id"));
    assert!(params.iter().any(|p| p.name == "name"));
    // id should be required
    assert!(params.iter().any(|p| p.name == "id" && p.required));
}

#[test]
fn test_nested_form_nullable_property_not_required() {
    // An optional (nullable) property is never required, whatever the
    // struct-level flag says; a plain property inherits the flag.
    let mut gen = OpenApiGenerator::new(&OpenApiSettings::new());
    let params = get_nested_form_parameters::<MyForm>(&mut gen, "myform".to_owned(), true);
    assert!(params.iter().any(|p| p.name == "name" && !p.required));
    assert!(params.iter().any(|p| p.name == "id" && p.required));
}

#[test]
fn test_openapi_from_data_string_and_vec() {
    let mut gen = OpenApiGenerator::new(&OpenApiSettings::new());
    let rb = <String as OpenApiFromData>::request_body(&mut gen).unwrap();
    assert!(rb.content.contains_key("application/octet-stream"));
    let rb2 = <Vec<u8> as OpenApiFromData>::request_body(&mut gen).unwrap();
    assert!(rb2.content.contains_key("application/octet-stream"));
}

#[test]
fn test_optional_query_parameter_not_required() {
    // An Option-shaped query parameter yields required = false; the plain
    // type yields required = true.
    let mut gen = OpenApiGenerator::new(&OpenApiSettings::new());
    let optional = <Option<String> as OpenApiFromFormField>::form_parameter(
        &mut gen,
        "q".to_owned(),
        true,
    )
    .unwrap();
    assert!(!optional.required);
    let plain =
        <String as OpenApiFromFormField>::form_parameter(&mut gen, "q".to_owned(), true).unwrap();
    assert!(plain.required);
}

#[test]
fn test_optional_body_not_required() {
    let mut gen = OpenApiGenerator::new(&OpenApiSettings::new());
    let rb = <Option<String> as OpenApiFromData>::request_body(&mut gen).unwrap();
    assert!(!rb.required);
}

#[test]
fn test_openapi_from_segments_impl() {
    let mut gen = OpenApiGenerator::new(&OpenApiSettings::new());
    let p = <String as OpenApiFromSegments>::path_multi_parameter(&mut gen, "seg".to_owned())
        .unwrap();
    assert_eq!(p.name, "seg");
    assert_eq!(p.location, "path");
    assert!(p.required);
    assert!(!p.schema.raw.is_empty());
}

#[test]
fn test_nested_form_parameters_repeatable() {
    // Two requests for one type on one generator flatten to the same
    // parameters, and the inlined derivation registers nothing.
    let mut gen = OpenApiGenerator::new(&OpenApiSettings::new());
    let first = get_nested_form_parameters::<MyForm>(&mut gen, "myform".to_owned(), true);
    let second = get_nested_form_parameters::<MyForm>(&mut gen, "myform".to_owned(), true);
    assert_eq!(first.len(), second.len());
    for (a, b) in first.iter().zip(second.iter()) {
        assert_eq!(a.name, b.name);
        assert_eq!(a.required, b.required);
        assert_eq!(a.schema.raw, b.schema.raw);
    }
    let spec = gen.into_openapi();
    assert_eq!(spec.components.as_ref().unwrap().schemas.len(), 0);
}
