use nantaraquad::api::introspect::{build_api_reference, ApiCategory};

#[test]
fn api_reference_contents() {
    let api = build_api_reference();
    assert_eq!(api.version, "0.1.0");
    assert_eq!(api.functions.len(), 17);
    let names: Vec<&str> = api.functions.iter().map(|f| f.name.as_str()).collect();
    assert_eq!(
        names,
        vec![
            "pset", "pget", "line", "rect", "rectfill", "circle", "circfill", "print", "cls", "spr", "btn", "btnp",
            "camera", "zoom", "sfx", "music", "frame_time"
        ]
    );
    assert_eq!(api.categories.len(), 9);
    assert_eq!(api.categories[0], "Drawing");
    assert_eq!(api.categories[8], "Resources");
}

#[test]
fn api_function_details() {
    let api = build_api_reference();
    let line = api.find_function("line").unwrap();
    assert_eq!(line.parameters.len(), 5);
    assert_eq!(line.parameters[4].name, "col");
    assert_eq!(line.parameters[4].type_label, "u8");
    assert_eq!(line.example.as_deref(), Some("line(10, 20, 50, 60, 5);"));
    let pget = api.find_function("pget").unwrap();
    assert_eq!(pget.return_type.type_label, "Option<u8>");
    let sfx = api.find_function("sfx").unwrap();
    assert_eq!(sfx.stability, "experimental");
    assert!(api.find_function("nope").is_none());
}

#[test]
fn api_by_category_counts() {
    let api = build_api_reference();
    assert_eq!(api.by_category("Drawing").len(), 9);
    assert_eq!(api.by_category("Input").len(), 2);
    assert_eq!(api.by_category("Framework").len(), 1);
    assert_eq!(api.by_category("Particles").len(), 0);
    let cams: Vec<&str> = api.by_category("Camera").iter().map(|f| f.name.as_str()).collect();
    assert_eq!(cams, vec!["camera", "zoom"]);
}

#[test]
fn api_category_names() {
    assert_eq!(ApiCategory::Drawing.name(), "Drawing");
    assert_eq!(ApiCategory::Particles.name(), "Particles");
    assert_eq!(ApiCategory::Resources.name(), "Resources");
}
