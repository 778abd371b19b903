//! Tests for OpenApiResponderInner implementations and util functions

use rocket_okapi::gen::{OpenApiGenerator, OpenApiSettings};
use rocket_okapi::openapi3::{MediaTypeObject, Response, Responses, StrMap};
use rocket_okapi::response::OpenApiResponderInner;
use rocket_okapi::util::{change_all_responses_to_default, set_content_type};

#[test]
fn test_unit_responses_200() {
    let mut gen = OpenApiGenerator::new(&OpenApiSettings::new());
    let r = <() as OpenApiResponderInner>::responses(&mut gen).unwrap();
    assert!(r.responses.contains_key("200"));
}

#[test]
fn test_error_io_responses_500() {
    let mut gen = OpenApiGenerator::new(&OpenApiSettings::new());
    let r = <std::io::Error as OpenApiResponderInner>::responses(&mut gen).unwrap();
    assert!(r.responses.contains_key("500"));
}

#[test]
fn test_string_and_vec_responses() {
    let mut gen = OpenApiGenerator::new(&OpenApiSettings::new());
    let r = <String as OpenApiResponderInner>::responses(&mut gen).unwrap();
    assert!(r
        .responses
        .entries_ref()
        .iter()
        .any(|(_, resp)| !resp.content.is_empty()));
    let r2 = <Vec<u8> as OpenApiResponderInner>::responses(&mut gen).unwrap();
    assert!(r2
        .responses
        .entries_ref()
        .iter()
        .any(|(_, resp)| !resp.content.is_empty()));
}

#[test]
fn test_result_combination_and_option() {
    let mut gen = OpenApiGenerator::new(&OpenApiSettings::new());
    let r = <std::result::Result<String, std::io::Error> as OpenApiResponderInner>::responses(
        &mut gen,
    )
    .unwrap();
    assert!(r.responses.contains_key("200"));
    assert!(r.responses.contains_key("500"));
    let r2 = <Option<String> as OpenApiResponderInner>::responses(&mut gen).unwrap();
    assert!(r2.responses.contains_key("404"));
}

// UTIL function tests
#[test]
fn test_set_content_type_and_default() {
    let mut r = Responses::empty();
    // add 200 response with application/json
    let mut content: StrMap<MediaTypeObject> = StrMap::new();
    content.insert_keep("application/json".to_owned(), MediaTypeObject::empty());
    let resp = Response {
        description: String::new(),
        content,
    };
    r.responses.insert_keep("200".to_owned(), resp);
    // change to text/plain
    set_content_type(&mut r, "text/plain").unwrap();
    assert!(r
        .responses
        .entries_ref()
        .iter()
        .any(|(_, rr)| rr.content.contains_key("text/plain")));
    // change all responses to default
    change_all_responses_to_default(&mut r);
    assert!(r.responses.contains_key("default"));
}
