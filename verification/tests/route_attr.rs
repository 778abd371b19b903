use rocket_okapi::http::HttpMethod;
use rocket_okapi::route::{parse_origin, render_origin};
use rocket_okapi::route_attr::{
    extract_inner_args_string, is_route_attribute, parse_args_string_to_parts, parse_attr,
    parse_attr_from_attr, trim_angle_brackers, AttrArg, AttrError,
};

#[test]
fn test_parse_args_string_to_parts_basic() {
    let s = "\"/user/<id>?<q>\", format = \"application/json\", data = \"<a>\"";
    let parts = parse_args_string_to_parts(s);
    assert_eq!(parts.len(), 3);
    assert!(parts.iter().any(|p| p.contains("/user/<id>")));
    assert!(parts.iter().any(|p| p.contains("format")));
    assert!(parts.iter().any(|p| p.contains("data")));
}

#[test]
fn test_extract_inner_args_string() {
    let out = extract_inner_args_string("get(\"/a\")").unwrap();
    assert_eq!(out, "\"/a\"");
}

#[test]
fn test_is_route_attribute_get_and_protect() {
    assert!(is_route_attribute("get"));
    assert!(is_route_attribute("protect_get"));
    assert!(!is_route_attribute("openapi"));
}

#[test]
fn test_parse_attr_from_attr_get_success() {
    let r = parse_attr_from_attr("get", "\"/user/<id>?<q>\"").unwrap();
    assert_eq!(r.method, HttpMethod::Get);
    assert!(render_origin(&r.origin).contains("/user/<id>"));
    assert!(r.path_params().iter().any(|p| p == "id"));
    assert!(r.query_params().iter().any(|p| p == "q"));
}

#[test]
fn test_parse_attr_from_attr_protect_get_data_trim() {
    let r = parse_attr_from_attr("protect_get", "\"/api/<a>\", data = \"<param>\"").unwrap();
    assert_eq!(r.method, HttpMethod::Get);
    assert_eq!(r.data_param.as_deref(), Some("param"));
}

#[test]
fn test_parse_attr_from_attr_invalid_method() {
    let err = parse_attr_from_attr("unknown", "\"/a\"").unwrap_err();
    assert!(err.message().to_lowercase().contains("unknown http method"));
}

#[test]
fn test_trim_angle_brackers_cases() {
    assert_eq!(trim_angle_brackers("<param>".to_owned()), "param");
    assert_eq!(trim_angle_brackers("plain".to_owned()), "plain");
    assert_eq!(trim_angle_brackers("<open".to_owned()), "<open");
}

#[test]
fn test_primary_and_fallback_agree_on_params() {
    // The structured parser and the raw-text fallback extract the same
    // path and query parameter names for the same route input.
    let args = vec![AttrArg::Lit("/user/<id>/<rest..>?<q>&sort".to_owned())];
    let primary = parse_attr("get", &args).unwrap();
    let fallback = parse_attr_from_attr("get", "\"/user/<id>/<rest..>?<q>&sort\"").unwrap();
    assert_eq!(primary.path_params(), fallback.path_params());
    assert_eq!(primary.query_params(), fallback.query_params());
    assert_eq!(
        primary.path_multi_param().cloned(),
        fallback.path_multi_param().cloned()
    );
    assert_eq!(primary.query_multi_params(), fallback.query_multi_params());

    // The same agreement with format and data arguments present.
    let args = vec![
        AttrArg::Lit("/p/<x>?<y>".to_owned()),
        AttrArg::Named("format".to_owned(), "json".to_owned()),
        AttrArg::Named("data".to_owned(), "<body>".to_owned()),
    ];
    let primary = parse_attr("post", &args).unwrap();
    let fallback = parse_attr_from_attr(
        "post",
        "\"/p/<x>?<y>\", format = \"json\", data = \"<body>\"",
    )
    .unwrap();
    assert_eq!(primary.path_params(), fallback.path_params());
    assert_eq!(primary.query_params(), fallback.query_params());
    assert_eq!(primary.media_type, fallback.media_type);
    assert_eq!(primary.data_param, fallback.data_param);
    assert_eq!(primary.data_param.as_deref(), Some("body"));
}

#[test]
fn test_route_template_round_trip() {
    // Rendering a parsed origin and re-parsing yields the identical origin.
    let text = "/a/<b>/<c..>?x=1&<q>&<rest..>";
    let parsed = parse_origin(text).unwrap();
    let rendered = render_origin(&parsed);
    assert_eq!(rendered, text);
    let reparsed = parse_origin(&rendered).unwrap();
    assert_eq!(render_origin(&reparsed), text);
}

#[test]
fn test_parse_origin_rejects_bad_templates() {
    // No leading slash, an empty segment, and a non-final multi placeholder.
    assert!(parse_origin("relative").is_none());
    assert!(parse_origin("/a//b").is_none());
    assert!(parse_origin("/a/<b..>/c").is_none());
    assert!(parse_origin("/a?<b..>&c").is_none());
}

#[test]
fn test_parse_attr_error_cases() {
    // No arguments at all.
    match parse_attr_from_attr("get", "") {
        Err(AttrError::TooFewItems) => {}
        _ => panic!("expected a too-few-arguments error"),
    }
    // An unknown media type.
    match parse_attr_from_attr("get", "\"/a\", format = \"nosuchtype\"") {
        Err(AttrError::UnknownMediaType(t)) => assert_eq!(t, "nosuchtype"),
        _ => panic!("expected an unknown-media-type error"),
    }
    // An invalid path template.
    match parse_attr_from_attr("get", "\"nope\"") {
        Err(AttrError::InvalidPath(p)) => assert_eq!(p, "nope"),
        _ => panic!("expected an invalid-path error"),
    }
    // The general route form is not handled by the fallback parser.
    assert!(matches!(
        parse_attr_from_attr("route", "\"/a\""),
        Err(AttrError::RouteFormNotHandled)
    ));
    // A path standing where the method keyword belongs.
    let args = vec![AttrArg::Lit("/a".to_owned())];
    assert!(matches!(
        parse_attr("not_a_method", &args),
        Err(AttrError::PathInMethodPosition)
    ));
    // A known method without a path argument.
    let args = vec![AttrArg::Word("get".to_owned())];
    assert!(matches!(
        parse_attr("not_a_method", &args),
        Err(AttrError::MissingPath)
    ));
}

#[test]
fn test_format_shorthand_resolves_media_type() {
    // The media-type table resolves the shorthand, so the stored media type
    // is not the raw attribute text.
    let r = parse_attr_from_attr("post", "\"/a\", format = \"json\", data = \"<body>\"").unwrap();
    assert_eq!(r.media_type.as_deref(), Some("application/json"));
    assert_eq!(r.data_param.as_deref(), Some("body"));
}

#[test]
fn test_method_names_case_insensitive() {
    let r = parse_attr_from_attr("GET", "\"/a\"").unwrap();
    assert_eq!(r.method, HttpMethod::Get);
    assert_eq!(r.method.name(), "GET");
}
