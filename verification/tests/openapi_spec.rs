use rocket_okapi::openapi_spec::{add_operation_fn_name, operation_id, package_info};

#[test]
fn test_operation_id_and_fn_name_for_add_operation() {
    let idents = vec![
        "crate".to_owned(),
        "module".to_owned(),
        "do_stuff".to_owned(),
    ];
    let fn_name = add_operation_fn_name("do_stuff");
    assert!(fn_name.starts_with("okapi_add_operation_for_do_stuff"));
    let id = operation_id(&idents);
    assert_eq!(id, "crate_module_do_stuff");
}

#[test]
fn test_package_info_defaults() {
    let info = package_info("mypkg", "1.2.3", "", "https://example.test/repo", "");
    assert_eq!(info.title, "mypkg");
    assert_eq!(info.version, "1.2.3");
    assert!(info.description.is_none());
    let contact = info.contact.unwrap();
    assert_eq!(contact.name.as_deref(), Some("Repository"));
    assert_eq!(contact.url.as_deref(), Some("https://example.test/repo"));

    // The homepage wins over the repository when both are set.
    let info2 = package_info(
        "mypkg",
        "1.2.3",
        "does things",
        "https://example.test/repo",
        "https://example.test",
    );
    assert_eq!(info2.description.as_deref(), Some("does things"));
    let contact2 = info2.contact.unwrap();
    assert_eq!(contact2.name.as_deref(), Some("Homepage"));
    assert_eq!(contact2.url.as_deref(), Some("https://example.test"));
}
