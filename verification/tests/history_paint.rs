use nantaraquad::api;
use nantaraquad::editor::history::{PixelChange, UndoRedoStack};
use nantaraquad::editor::paint::{paint_pixel, redo_paint, undo_paint};
use nantaraquad::engine::Engine;

fn change(x: u32) -> PixelChange {
    PixelChange { sprite_id: 0, x, y: 0, old_color: vec![0, 0, 0, 0], new_color: vec![1, 1, 1, 1] }
}

#[test]
fn history_undo_then_redo() {
    let mut h = UndoRedoStack::new();
    assert!(!h.can_undo() && !h.can_redo());
    h.record(change(1));
    h.record(change(2));
    assert_eq!(h.undo_count(), 2);
    assert_eq!(h.undo().map(|c| c.x), Some(2));
    assert!(h.can_redo());
    assert_eq!(h.redo().map(|c| c.x), Some(2));
    assert_eq!(h.undo_count(), 2);
    assert_eq!(h.redo_count(), 0);
}

#[test]
fn history_record_clears_redo() {
    let mut h = UndoRedoStack::new();
    h.record(change(1));
    h.undo();
    assert_eq!(h.redo_count(), 1);
    h.record(change(3));
    assert_eq!(h.redo_count(), 0);
    assert!(h.redo().is_none());
}

#[test]
fn history_empty_undo_redo_do_nothing() {
    let mut h = UndoRedoStack::new();
    assert!(h.undo().is_none());
    assert!(h.redo().is_none());
    assert_eq!((h.undo_count(), h.redo_count()), (0, 0));
}

#[test]
fn history_keeps_at_most_1000() {
    let mut h = UndoRedoStack::new();
    for i in 0..1005 {
        h.record(change(i));
    }
    assert_eq!(h.undo_count(), 1000);
    let mut last = None;
    while let Some(c) = h.undo() {
        last = Some(c.x);
    }
    // the five oldest changes were forgotten
    assert_eq!(last, Some(5));
    h.clear();
    assert_eq!((h.undo_count(), h.redo_count()), (0, 0));
}

#[test]
fn paint_then_undo_restores_pixel() {
    let mut e = Engine::new();
    api::create_sprite(&mut e, 4, 4);
    api::set_pixel(&mut e, 0, 1, 1, &[10, 20, 30, 255]).unwrap();
    let mut h = UndoRedoStack::new();
    paint_pixel(&mut e, &mut h, 0, 1, 1, [200, 100, 0, 255]);
    assert_eq!(api::get_pixel(&e, 0, 1, 1), Some(vec![200, 100, 0, 255]));
    assert_eq!(h.undo_count(), 1);
    assert!(undo_paint(&mut e, &mut h));
    assert_eq!(api::get_pixel(&e, 0, 1, 1), Some(vec![10, 20, 30, 255]));
    assert!(redo_paint(&mut e, &mut h));
    assert_eq!(api::get_pixel(&e, 0, 1, 1), Some(vec![200, 100, 0, 255]));
    assert!(!redo_paint(&mut e, &mut h));
}

#[test]
fn paint_off_sprite_records_nothing() {
    let mut e = Engine::new();
    api::create_sprite(&mut e, 2, 2);
    let mut h = UndoRedoStack::new();
    paint_pixel(&mut e, &mut h, 0, 5, 5, [1, 2, 3, 4]);
    paint_pixel(&mut e, &mut h, 3, 0, 0, [1, 2, 3, 4]);
    assert_eq!(h.undo_count(), 0);
    assert!(!undo_paint(&mut e, &mut h));
}
