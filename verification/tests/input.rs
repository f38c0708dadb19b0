use nantaraquad::api::input::{InputState, Key};

#[test]
fn test_input_state_creation() {
    let input = InputState::new();
    assert!(!input.btn(Key::Up));
    assert!(!input.btnp(Key::Up));
}

#[test]
fn test_key_press() {
    let mut input = InputState::new();
    input.press_key(Key::Up);
    assert!(input.btn(Key::Up));
    assert!(input.btnp(Key::Up));
}

#[test]
fn test_key_release() {
    let mut input = InputState::new();
    input.press_key(Key::Up);
    input.release_key(Key::Up);
    assert!(!input.btn(Key::Up));
}

#[test]
fn test_frame_update() {
    let mut input = InputState::new();
    input.press_key(Key::Up);
    assert!(input.btnp(Key::Up));
    input.update_frame();
    assert!(!input.btnp(Key::Up));
    assert!(input.btn(Key::Up)); // still pressed
}

#[test]
fn test_multiple_keys() {
    let mut input = InputState::new();
    input.press_key(Key::Up);
    input.press_key(Key::Left);
    assert!(input.btn(Key::Up));
    assert!(input.btn(Key::Left));
    assert!(!input.btn(Key::Down));
}
