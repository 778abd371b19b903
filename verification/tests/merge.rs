use rocket_okapi::merge::{
    merge_map, merge_opt_string, merge_option, merge_paths, merge_specs, merge_string, merge_tags,
    merge_vec,
};
use rocket_okapi::openapi3::{OpenApi, Operation, PathItem, StrMap, Tag};

#[test]
fn test_merge_string() {
    assert_eq!(merge_string("", "b"), "b");
    assert_eq!(merge_string("a", "b"), "a");
}

#[test]
fn test_merge_opt_string() {
    let mut opt1: Option<String> = None;
    let opt2: Option<String> = Some("b".to_owned());
    merge_opt_string(&mut opt1, &opt2);
    assert_eq!(opt1.as_deref(), Some("b"));

    let mut opt3: Option<String> = Some("a".to_owned());
    let opt4: Option<String> = Some("b".to_owned());
    merge_opt_string(&mut opt3, &opt4);
    assert_eq!(opt3.as_deref(), Some("a"));
}

#[test]
fn test_merge_option() {
    let mut opt1: Option<i32> = None;
    merge_option(&mut opt1, &Some(1));
    assert_eq!(opt1, Some(1));

    let mut opt2: Option<i32> = Some(2);
    merge_option(&mut opt2, &Some(3));
    assert_eq!(opt2, Some(2));
}

#[test]
fn test_merge_vec() {
    let mut a = vec![1, 2];
    let b = vec![3, 4];
    merge_vec(&mut a, &b);
    assert_eq!(a, vec![1, 2, 3, 4]);
}

#[test]
fn test_merge_map_and_map_keys() {
    let mut m1: StrMap<i32> = StrMap::new();
    m1.insert_keep("a".to_owned(), 1);
    let mut m2: StrMap<i32> = StrMap::new();
    m2.insert_keep("b".to_owned(), 2);
    merge_map(&mut m1, &m2, "test").unwrap();
    assert_eq!(m1.get("a"), Some(&1));
    assert_eq!(m1.get("b"), Some(&2));

    // Conflicting key: m1 keeps its value
    let mut m3: StrMap<i32> = StrMap::new();
    m3.insert_keep("a".to_owned(), 3);
    merge_map(&mut m1, &m3, "test").unwrap();
    assert_eq!(m1.get("a"), Some(&1));
}

#[test]
fn test_merge_tags_and_tag_merge() {
    let t1 = Tag {
        name: "x".to_owned(),
        description: Some("a".to_owned()),
    };
    let t2 = Tag {
        name: "x".to_owned(),
        description: Some("b".to_owned()),
    };
    let mut s1 = vec![t1.clone()];
    let s2 = vec![t2.clone()];
    let merged = merge_tags(&mut s1, &s2).unwrap();
    assert_eq!(merged.len(), 1);
    assert_eq!(merged[0].name, "x");
    // Description should keep from s1 (the first)
    assert_eq!(merged[0].description.as_deref(), Some("a"));
}

fn item_with_get() -> PathItem {
    let mut item = PathItem::empty();
    item.get = Some(Operation::empty());
    item
}

fn item_with_post() -> PathItem {
    let mut item = PathItem::empty();
    item.post = Some(Operation::empty());
    item
}

#[test]
fn test_merge_paths_prefix_and_methods() {
    let mut p1: StrMap<PathItem> = StrMap::new();
    // Use a path with the prefix already included so merge can find an existing entry
    p1.insert_keep("/base/x".to_owned(), item_with_get());

    let mut p2: StrMap<PathItem> = StrMap::new();
    p2.insert_keep("/x".to_owned(), item_with_post());

    merge_paths(&mut p1, "/base/", &p2).unwrap();
    // Merged key should be /base/x
    assert!(p1.contains_key("/base/x"));
    let merged_item = p1.get("/base/x").unwrap();
    assert!(merged_item.get.is_some());
    assert!(merged_item.post.is_some());
}

#[test]
fn test_merge_specs_combine() {
    let mut s1 = OpenApi::new();
    s1.info.title = "Spec1".to_owned();
    s1.tags.push(Tag {
        name: "a".to_owned(),
        description: None,
    });

    let mut s2 = OpenApi::new();
    s2.info.title = "Spec2".to_owned();
    s2.tags.push(Tag {
        name: "b".to_owned(),
        description: None,
    });

    merge_specs(&mut s1, "/", &s2).unwrap();
    // s1 title should be kept
    assert_eq!(s1.info.title, "Spec1");
    // tags length should match
    assert_eq!(s1.tags.len(), 2);
}

#[test]
fn test_merge_disjoint_prefixes_order_independent() {
    // Merging one fragment under /a and another under /b gives the same
    // path set whichever merge comes first.
    let mut frag_a: StrMap<PathItem> = StrMap::new();
    frag_a.insert_keep("/x".to_owned(), item_with_get());
    let mut frag_b: StrMap<PathItem> = StrMap::new();
    frag_b.insert_keep("/x".to_owned(), item_with_post());

    let mut base1: StrMap<PathItem> = StrMap::new();
    merge_paths(&mut base1, "/a", &frag_a).unwrap();
    merge_paths(&mut base1, "/b", &frag_b).unwrap();

    let mut base2: StrMap<PathItem> = StrMap::new();
    merge_paths(&mut base2, "/b", &frag_b).unwrap();
    merge_paths(&mut base2, "/a", &frag_a).unwrap();

    for base in [&base1, &base2] {
        assert_eq!(base.len(), 2);
        assert!(base.contains_key("/a/x"));
        assert!(base.contains_key("/b/x"));
        assert!(base.get("/a/x").unwrap().get.is_some());
        assert!(base.get("/b/x").unwrap().post.is_some());
    }
}

#[test]
fn test_merge_same_key_first_wins() {
    // Two fragments that each define GET under the same rewritten path:
    // the first-merged operation stays, the second is dropped.
    let mut op1 = Operation::empty();
    op1.operation_id = Some("first".to_owned());
    let mut item1 = PathItem::empty();
    item1.get = Some(op1);

    let mut op2 = Operation::empty();
    op2.operation_id = Some("second".to_owned());
    let mut item2 = PathItem::empty();
    item2.get = Some(op2);

    let mut frag1: StrMap<PathItem> = StrMap::new();
    frag1.insert_keep("/x".to_owned(), item1);
    let mut frag2: StrMap<PathItem> = StrMap::new();
    frag2.insert_keep("/x".to_owned(), item2);

    let mut base: StrMap<PathItem> = StrMap::new();
    merge_paths(&mut base, "/", &frag1).unwrap();
    merge_paths(&mut base, "/", &frag2).unwrap();

    let item = base.get("/x").unwrap();
    let kept = item.get.as_ref().unwrap();
    assert_eq!(kept.operation_id.as_deref(), Some("first"));
}
