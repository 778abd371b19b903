use rocket_okapi::doc_attr::{
    get_doc, get_title_and_desc_from_doc, merge_description_lines, none_if_empty,
};

#[test]
fn test_get_title_and_desc_from_doc_markdown() {
    let values = vec!["# Title\n\nSome description".to_owned()];
    let (title, desc) = get_title_and_desc_from_doc(&values);
    assert_eq!(title.as_deref(), Some("Title"));
    assert!(desc.unwrap().contains("Some description"));
}

#[test]
fn test_get_title_and_desc_from_doc_description_only() {
    let values = vec!["First line\n\nSecond paragraph".to_owned()];
    let (title, desc) = get_title_and_desc_from_doc(&values);
    assert!(title.is_none());
    assert!(desc.unwrap().contains("First line"));
}

#[test]
fn test_none_if_empty_return_none() {
    assert!(none_if_empty("".to_owned()).is_none());
    // Whitespace only is considered non-empty by `none_if_empty` implementation
    assert!(none_if_empty("   ".to_owned()).is_some());
    assert!(none_if_empty(" content ".to_owned()).is_some());
}

#[test]
fn test_merge_description_lines_paragraphs() {
    // Paragraphs are trimmed, inner newlines collapse to spaces, empty
    // paragraphs drop, and the rest rejoin with blank lines.
    let merged = merge_description_lines("  first line\ncontinued  \n\n\n\nsecond  ").unwrap();
    assert_eq!(merged, "first line continued\n\nsecond");
    assert!(merge_description_lines("  \n\n   ").is_none());
}

#[test]
fn test_get_doc_skips_leading_blank_lines() {
    let values = vec!["".to_owned(), "   ".to_owned(), "body".to_owned(), "".to_owned()];
    let doc = get_doc(&values).unwrap();
    assert_eq!(doc, "body\n");
    assert!(get_doc(&Vec::new()).is_none());
}

#[test]
fn test_title_only_doc_has_no_description() {
    let values = vec!["## Heading only".to_owned()];
    let (title, desc) = get_title_and_desc_from_doc(&values);
    assert_eq!(title.as_deref(), Some("Heading only"));
    assert!(desc.is_none());
}
