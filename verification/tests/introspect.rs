use nantaraquad::api::introspect::build_api_reference;

#[test]
fn test_api_reference_creation() {
    let api = build_api_reference();
    assert!(!api.functions.is_empty());
    assert_eq!(api.engine_name, "Nantaraquad");
}

#[test]
fn test_find_function() {
    let api = build_api_reference();
    let pset = api.find_function("pset");
    assert!(pset.is_some());
}

#[test]
fn test_filter_by_category() {
    let api = build_api_reference();
    let drawing = api.by_category("Drawing");
    assert!(!drawing.is_empty());
}
