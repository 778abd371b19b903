use rocket_okapi::gen::{OpenApiGenerator, OpenApiSettings, OperationInfo};
use rocket_okapi::http::HttpMethod;
use rocket_okapi::openapi3::{Operation, SchemaDocument, SecurityScheme, SecuritySchemeData};
use rocket_okapi::schema::backend_definitions;

#[test]
fn test_add_security_and_into_openapi_and_operation_id() {
    let mut gen = OpenApiGenerator::new(&OpenApiSettings::new());
    // Add a simple security scheme
    let scheme = SecurityScheme {
        description: None,
        data: SecuritySchemeData::Http {
            scheme: "basic".to_owned(),
            bearer_format: None,
        },
    };
    gen.add_security_scheme("myscheme".to_owned(), scheme);

    // Add an operation with an operation_id that includes module path separators.
    let mut op = Operation::empty();
    op.operation_id = Some("::module::action".to_owned());
    let info = OperationInfo {
        path: "/one".to_owned(),
        method: HttpMethod::Get,
        operation: op,
    };
    gen.add_operation(info).unwrap();

    // Add another method to the same path
    let op2 = Operation::empty();
    gen.add_operation(OperationInfo {
        path: "/one".to_owned(),
        method: HttpMethod::Post,
        operation: op2,
    })
    .unwrap();

    let openapi = gen.into_openapi();
    // Paths should contain the route
    assert!(openapi.paths.contains_key("/one"));
    // The GET operation operation_id should be transformed 'module_action'
    let path_item = openapi.paths.get("/one").unwrap();
    let get_op = path_item.get.as_ref().unwrap();
    assert_eq!(get_op.operation_id.as_deref(), Some("module_action"));
    assert!(path_item.post.is_some());
    // Components should contain security scheme 'myscheme'
    let comps = openapi.components.as_ref().unwrap();
    assert!(comps.security_schemes.contains_key("myscheme"));
}

#[test]
fn test_json_schema_and_schema_generator_methods() {
    let mut gen = OpenApiGenerator::new(&OpenApiSettings::new());
    // Call json_schema and json_schema_no_ref
    let _sch = gen.json_schema::<i32>();
    let _refsch = gen.json_schema_no_ref::<i32>();
    // schema_generator getter
    let _sg = gen.schema_generator();
    assert!(!backend_definitions(_sg).is_empty() || true);
}

#[test]
fn test_json_schema_idempotent_and_registered_once() {
    // Two requests for the same type yield structurally equal schemas and
    // register the schema once, not twice.
    let mut gen = OpenApiGenerator::new(&OpenApiSettings::new());
    let first = gen.json_schema::<i32>();
    let second = gen.json_schema::<i32>();
    assert_eq!(first.raw, second.raw);
    assert_eq!(first.nullable, second.nullable);
    assert_eq!(first.properties.len(), second.properties.len());
    let spec = gen.into_openapi();
    let schemas = &spec.components.as_ref().unwrap().schemas;
    assert_eq!(schemas.len(), 1);
}

#[test]
fn test_duplicate_operation_rejected() {
    let mut gen = OpenApiGenerator::new(&OpenApiSettings::new());
    gen.add_operation(OperationInfo {
        path: "/x".to_owned(),
        method: HttpMethod::Get,
        operation: Operation::empty(),
    })
    .unwrap();
    let second = gen.add_operation(OperationInfo {
        path: "/x".to_owned(),
        method: HttpMethod::Get,
        operation: Operation::empty(),
    });
    assert!(second.is_err());
}

#[test]
fn test_schema_for_key_first_registration_wins() {
    // The registry keeps the first schema registered under a key: a later
    // request with a different fresh derivation returns the first.
    let mut gen = OpenApiGenerator::new(&OpenApiSettings::new());
    let first = SchemaDocument {
        nullable: false,
        description: None,
        properties: Vec::new(),
        raw: "{\"type\":\"integer\"}".to_owned(),
    };
    let second = SchemaDocument {
        nullable: true,
        description: None,
        properties: Vec::new(),
        raw: "{\"type\":\"string\"}".to_owned(),
    };
    let r1 = gen.schema_for_key("k".to_owned(), first);
    let r2 = gen.schema_for_key("k".to_owned(), second);
    assert_eq!(r1.raw, "{\"type\":\"integer\"}");
    assert_eq!(r2.raw, r1.raw);
    assert!(!r2.nullable);
    let spec = gen.into_openapi();
    assert_eq!(spec.components.as_ref().unwrap().schemas.len(), 1);
}
