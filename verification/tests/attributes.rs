//! Test documentation attribute handling (tag, operation_id, deprecated, skip)

use rocket_okapi::gen::{OpenApiGenerator, OpenApiSettings};
use rocket_okapi::openapi3::Responses;
use rocket_okapi::openapi_spec::{synthesize_operation, OpenApiAttributes};
use rocket_okapi::request::OpenApiFromParam;
use rocket_okapi::route_attr::parse_attr_from_attr;

fn synth(
    gen: &mut OpenApiGenerator,
    attr_name: &str,
    attr_args: &str,
    attrs: &OpenApiAttributes,
    default_id: &str,
) {
    let route = parse_attr_from_attr(attr_name, attr_args).unwrap();
    synthesize_operation(
        gen,
        &route,
        None,
        None,
        attrs,
        Vec::new(),
        None,
        Responses::empty(),
        default_id.to_owned(),
    )
    .unwrap();
}

#[test]
fn explicit_tag_and_operation_id_are_set() {
    let mut gen = OpenApiGenerator::new(&OpenApiSettings::new());
    let mut attrs = OpenApiAttributes::none();
    attrs.tag = Some("Users".to_owned());
    attrs.operation_id = Some("explicitOp".to_owned());
    synth(&mut gen, "get", "\"/tag_opid\"", &attrs, "crate_tag_opid");
    let spec = gen.into_openapi();

    let item = spec.paths.get("/tag_opid").unwrap();
    let operation = item.get.as_ref().unwrap();
    assert_eq!(operation.tags.len(), 1);
    assert_eq!(operation.tags[0], "Users");
    assert_eq!(operation.operation_id.as_deref(), Some("explicitOp"));
}

#[test]
fn deprecated_explicit_false_is_not_deprecated() {
    let mut gen = OpenApiGenerator::new(&OpenApiSettings::new());
    let mut attrs = OpenApiAttributes::none();
    attrs.deprecated = Some(false);
    synth(&mut gen, "get", "\"/deprecated_false\"", &attrs, "op");
    let spec = gen.into_openapi();

    let operation = spec.paths.get("/deprecated_false").unwrap().get.as_ref().unwrap();
    assert!(!operation.deprecated);
}

#[test]
fn skip_removes_route_from_spec() {
    // If the route is skipped, the generated spec should not contain it.
    let mut gen = OpenApiGenerator::new(&OpenApiSettings::new());
    let mut attrs = OpenApiAttributes::none();
    attrs.skip = true;
    synth(&mut gen, "get", "\"/skipped\"", &attrs, "op");
    let spec = gen.into_openapi();
    assert!(!spec.paths.contains_key("/skipped"));
}

#[test]
fn placeholders_render_as_braces_in_path_keys() {
    // The route's own `<name>` placeholders become `{name}` in the document
    // path key.
    let mut gen = OpenApiGenerator::new(&OpenApiSettings::new());
    let attrs = OpenApiAttributes::none();
    synth(&mut gen, "get", "\"/user/<id>/<rest..>\"", &attrs, "op");
    let spec = gen.into_openapi();
    assert!(spec.paths.contains_key("/user/{id}/{rest}"));
}

#[test]
fn default_operation_id_used_when_no_override() {
    let mut gen = OpenApiGenerator::new(&OpenApiSettings::new());
    let attrs = OpenApiAttributes::none();
    synth(&mut gen, "get", "\"/plain\"", &attrs, "crate_module_plain");
    let spec = gen.into_openapi();
    let operation = spec.paths.get("/plain").unwrap().get.as_ref().unwrap();
    assert_eq!(operation.operation_id.as_deref(), Some("crate_module_plain"));
}

#[test]
fn ignored_parameter_left_out_of_document() {
    let mut gen = OpenApiGenerator::new(&OpenApiSettings::new());
    let route = parse_attr_from_attr("get", "\"/w/<a>/<b>\"").unwrap();
    let mut attrs = OpenApiAttributes::none();
    attrs.ignore = vec!["b".to_owned()];
    let pa = <i32 as OpenApiFromParam>::path_parameter(&mut gen, "a".to_owned()).unwrap();
    let pb = <i32 as OpenApiFromParam>::path_parameter(&mut gen, "b".to_owned()).unwrap();
    synthesize_operation(
        &mut gen,
        &route,
        None,
        None,
        &attrs,
        vec![pa, pb],
        None,
        Responses::empty(),
        "op".to_owned(),
    )
    .unwrap();
    let spec = gen.into_openapi();
    let operation = spec.paths.get("/w/{a}/{b}").unwrap().get.as_ref().unwrap();
    assert_eq!(operation.parameters.len(), 1);
    assert_eq!(operation.parameters[0].name, "a");
}
