use nantaraquad::editor::input::InputManager;

#[test]
fn shortcuts_need_ctrl() {
    let mut input = InputManager::default();
    assert!(!input.ctrl_pressed);
    assert!(!input.save_pressed(true));
    input.update(false, true, false, false);
    assert!(input.ctrl_pressed);
    assert!(!input.shift_pressed);
    assert!(input.save_pressed(true));
    assert!(!input.save_pressed(false));
    assert!(input.open_pressed(true));
    assert!(input.undo_pressed(true));
    assert!(input.redo_pressed(true));
    input.update(false, false, true, false);
    assert!(!input.ctrl_pressed);
    assert!(input.shift_pressed);
    assert!(!input.undo_pressed(true));
}
