//! The external schema capability: given a type, produce a JSON schema.
//! The schemars generator does the derivation; this module converts what it
//! returns into the plain `SchemaDocument` the engine works on.

use vstd::prelude::*;

use crate::openapi3::{PropertySchema, SchemaDocument};

verus! {

#[verifier::external_type_specification]
#[verifier::external_body]
pub struct ExSchemaGenerator(schemars::SchemaGenerator);

#[verifier::external_type_specification]
#[verifier::external_body]
pub struct ExJsonValue(serde_json::Value);

/// The stateful schema derivation backend: wraps the schemars generator that
/// collects schema definitions as types are visited.
pub struct SchemaBackend {
    generator: schemars::SchemaGenerator,
}

/// Relies on schemars::SchemaGenerator::new with the OpenAPI 3.0 settings
/// preset: a fresh generator with no definitions.
#[verifier::external_body]
pub(crate) fn backend_new() -> (b: SchemaBackend) {
    SchemaBackend {
        generator: schemars::SchemaGenerator::new(schemars::generate::SchemaSettings::openapi3()),
    }
}

/// Relies on schemars::SchemaGenerator::subschema_for: the schema of `T`,
/// possibly a reference to a definition recorded in the generator.
#[verifier::external_body]
pub(crate) fn backend_subschema<T: schemars::JsonSchema>(b: &mut SchemaBackend) -> (v: serde_json::Value) {
    b.generator.subschema_for::<T>().into()
}

/// Relies on schemars::SchemaGenerator::root_schema_for on a generator set
/// to inline subschemas: the schema of `T` with no references.
#[verifier::external_body]
pub(crate) fn backend_root_inline<T: schemars::JsonSchema>() -> (v: serde_json::Value) {
    let mut settings = schemars::generate::SchemaSettings::openapi3();
    settings.inline_subschemas = true;
    schemars::SchemaGenerator::new(settings).root_schema_for::<T>().into()
}

/// Relies on schemars::JsonSchema::schema_id: a textual key that
/// identifies `T`'s schema; it depends on the type alone.
#[verifier::external_body]
pub(crate) fn type_key<T: ?Sized + schemars::JsonSchema>() -> (k: String) {
    T::schema_id().into_owned()
}

/// Relies on serde_json::Value::get: the value under an object key.
#[verifier::external_body]
fn value_get(v: &serde_json::Value, key: &str) -> (r: Option<serde_json::Value>) {
    v.get(key).cloned()
}

/// Relies on serde_json::Value::as_bool.
#[verifier::external_body]
fn value_as_bool(v: &serde_json::Value) -> (r: Option<bool>) {
    v.as_bool()
}

/// Relies on serde_json::Value::as_str.
#[verifier::external_body]
fn value_as_str(v: &serde_json::Value) -> (r: Option<String>) {
    v.as_str().map(|s| s.to_owned())
}

/// Relies on serde_json::Value::as_object: the entries of a JSON object, in
/// the object's own order.
#[verifier::external_body]
fn value_object_entries(v: &serde_json::Value) -> (r: Vec<(String, serde_json::Value)>) {
    match v.as_object() {
        Some(m) => m.iter().map(|(k, val)| (k.clone(), val.clone())).collect(),
        None => Vec::new(),
    }
}

/// Relies on serde_json::to_string: the value rendered as JSON text.
#[verifier::external_body]
fn value_to_text(v: &serde_json::Value) -> (s: String) {
    serde_json::to_string(v).unwrap_or_default()
}

/// Relies on schemars::SchemaGenerator::definitions: the named schema
/// definitions recorded so far, each rendered as JSON text.
#[verifier::external_body]
pub fn backend_definitions(b: &SchemaBackend) -> (r: Vec<(String, String)>) {
    b.generator
        .definitions()
        .iter()
        .map(|(k, v)| (k.clone(), serde_json::to_string(v).unwrap_or_default()))
        .collect()
}

/// Reads the parts of a schema value the engine needs: the nullability
/// flag, the description, and the named object properties one level deep.
pub(crate) fn schema_document_from_value(v: &serde_json::Value) -> (r: SchemaDocument) {
    let nullable = match value_get(v, "nullable") {
        Some(b) => match value_as_bool(&b) {
            Some(x) => x,
            None => false,
        },
        None => false,
    };
    let description = match value_get(v, "description") {
        Some(d) => value_as_str(&d),
        None => None,
    };
    let mut properties: Vec<PropertySchema> = Vec::new();
    match value_get(v, "properties") {
        Some(props) => {
            let entries = value_object_entries(&props);
            let mut i: usize = 0;
            while i < entries.len()
                decreases entries.len() - i,
            {
                let (name, pv) = &entries[i];
                let p_nullable = match value_get(pv, "nullable") {
                    Some(b) => match value_as_bool(&b) {
                        Some(x) => x,
                        None => false,
                    },
                    None => false,
                };
                let p_description = match value_get(pv, "description") {
                    Some(d) => value_as_str(&d),
                    None => None,
                };
                properties.push(
                    PropertySchema {
                        name: name.clone(),
                        nullable: p_nullable,
                        description: p_description,
                        raw: value_to_text(pv),
                    },
                );
                i = i + 1;
            }
        },
        None => {},
    }
    SchemaDocument { nullable, description, properties, raw: value_to_text(v) }
}

} // verus!
