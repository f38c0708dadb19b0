use nantaraquad::editor::format::{CelData, DocumentFormat, LayerDef, SPARSE_FORMAT_VERSION};
use nantaraquad::sprite::ColorMode;
use nantaraquad::editor::format::io;

#[test]
fn test_cel_filename() {
    let name = io::cel_filename(0, 0);
    assert_eq!(name, "cel_0_0.bin");

    let name = io::cel_filename(10, 5);
    assert_eq!(name, "cel_10_5.bin");
}

#[test]
fn test_doc_dir_name() {
    let dir = io::doc_dir_name("My Project");
    assert_eq!(dir, "my_project.nquad");
}

#[test]
fn sparse_document_format_starts_empty() {
    let mut doc = DocumentFormat::new("Sheet", 16, 8);
    assert_eq!(doc.metadata.name, "Sheet");
    assert_eq!(doc.metadata.width, 16);
    assert_eq!(doc.metadata.height, 8);
    assert_eq!(doc.metadata.frame_count, 0);
    assert_eq!(doc.metadata.version, SPARSE_FORMAT_VERSION);
    assert_eq!(SPARSE_FORMAT_VERSION, 2);
    assert!(doc.layers.is_empty() && doc.clips.is_empty() && doc.cel_data.is_empty());
    doc.layers.push(LayerDef {
        id: 0,
        name: "Base".to_string(),
        default_opacity_bits: 1.0f32.to_bits(),
        default_blend_mode: "Normal".to_string(),
    });
    doc.cel_data.push(CelData {
        layer_id: 0,
        frame_num: 0,
        pixels: vec![0; 16 * 8 * 4],
        width: 16,
        height: 8,
        color_mode: ColorMode::FullColor,
        visible: true,
        opacity_override_bits: Some(0.5f32.to_bits()),
        blend_override: None,
    });
    assert_eq!(doc.cel_data[0].pixels.len(), 512);
}
