use nantaraquad::editor::session::{nQEditorPainting, nQEditorSession};
use nantaraquad::editor::state::EditorState;
use nantaraquad::sprite::ColorMode;

#[test]
fn test_session_creation() {
    let session = nQEditorSession::new();
    assert_eq!(session.document_count(), 1);
    assert_eq!(session.active_document_id(), 0);
}

#[test]
fn test_create_document() {
    let mut session = nQEditorSession::new();
    let doc_id = session.create_document("Test", 64, 64);

    assert_eq!(session.document_count(), 2);
    assert_eq!(doc_id, 1);
    assert_eq!(session.active_document_id(), 1);
}

#[test]
fn test_select_document() {
    let mut session = nQEditorSession::new();
    session.create_document("Doc2", 32, 32);

    assert!(session.select_document(0));
    assert_eq!(session.active_document_id(), 0);
}

#[test]
fn test_paint_active_layer() {
    let mut session = nQEditorSession::new();
    let color = vec![255, 0, 0, 255];

    let result = session.paint_active_layer(0, 0, &color);
    assert!(result.is_ok());

    let sampled = session.sample_active_layer(0, 0);
    assert_eq!(sampled, Some(color));
}

#[test]
fn test_locked_layer_prevents_painting() {
    let mut session = nQEditorSession::new();

    let doc = session.active_document_mut();
    if let Some(layer) = doc.layers.active_layer_mut() {
        layer.locked = true;
    }

    let result = session.paint_active_layer(0, 0, &[255, 0, 0, 255]);
    assert!(result.is_err());
}

#[test]
fn painting_errors_and_layer_id() {
    let mut session = nQEditorSession::new();
    assert_eq!(session.paint_active_layer(32, 0, &[1, 1, 1, 1]), Err("Pixel out of bounds".to_string()));
    assert_eq!(session.paint_active_layer(0, 0, &[1, 1, 1]), Err("Invalid pixel data size".to_string()));
    assert_eq!(session.sample_active_layer(0, 0), Some(vec![0, 0, 0, 0]));
    assert_eq!(session.sample_active_layer(0, 32), None);
    assert_eq!(session.active_layer_id(), Some(0));
    assert!(session.active_document().is_composite_dirty());
}

#[test]
fn documents_are_found_by_id() {
    let mut session = nQEditorSession::new();
    let a = session.create_document("A", 8, 8);
    let b = session.create_document("B", 16, 4);
    assert_eq!((a, b), (1, 2));
    assert_eq!(session.get_document(2).map(|d| d.name.as_str()), Some("B"));
    assert!(session.get_document(3).is_none());
    assert!(!session.select_document(3));
    assert_eq!(session.active_document_id(), 2);
    assert_eq!(session.active_document().layers.layers()[0].sprite.width, 16);
    if let Some(d) = session.get_document_mut(1) {
        d.invalidate_composite();
    }
    assert_eq!(session.documents().len(), 3);
    assert_eq!(session.save_document(1, "x.nq"), Ok(()));
    assert_eq!(session.save_document(9, "x.nq"), Err("Document 9 not found".to_string()));
    assert_eq!(session.load_document("x.nq"), Err("Not implemented yet".to_string()));
}

#[test]
fn painting_goes_to_the_active_document() {
    let mut session = nQEditorSession::new();
    session.create_document("Second", 4, 4);
    session.paint_active_layer(1, 1, &[7, 7, 7, 7]).unwrap();
    assert!(session.select_document(0));
    assert_eq!(session.sample_active_layer(1, 1), Some(vec![0, 0, 0, 0]));
    assert!(session.select_document(1));
    assert_eq!(session.sample_active_layer(1, 1), Some(vec![7, 7, 7, 7]));
}

#[test]
fn editor_state_defaults_and_setters() {
    let mut s = EditorState::new();
    assert_eq!(s.brush_color, [255, 0, 0, 255]);
    assert_eq!(f32::from_bits(s.zoom_bits), 8.0);
    s.pan_x_bits = 3.5f32.to_bits();
    s.set_brush_size(0);
    assert_eq!(s.brush_size, 1);
    s.set_brush_size(5);
    assert_eq!(s.brush_size, 5);
    s.set_sprite(4, ColorMode::FullColor);
    assert_eq!(s.sprite_id, Some(4));
    assert_eq!(f32::from_bits(s.pan_x_bits), 0.0);
    let mut session = nQEditorSession::default();
    session.ui_state_mut().set_brush_color([1, 2, 3, 4]);
    assert_eq!(session.ui_state().brush_color, [1, 2, 3, 4]);
}
