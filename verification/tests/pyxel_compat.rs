use nantaraquad::api::drawing::{DrawingContext, PYXEL_PALETTE};
use nantaraquad::api::input::{InputState, Key};

/// The circle outline of the drawing context: 360 points at one-degree
/// steps, drawn with `set_pixel_safe` (floating point is not in the
/// library, so the test draws it the same way here).
fn circle(ctx: &mut DrawingContext, x: i32, y: i32, r: i32, color: u8) {
    let rgba = ctx.index_to_rgba(color);
    for angle in 0..360 {
        let rad = angle as f32 * std::f32::consts::PI / 180.0;
        let px = x + (rad.cos() * r as f32) as i32;
        let py = y + (rad.sin() * r as f32) as i32;
        ctx.set_pixel_safe(px as u32, py as u32, &rgba);
    }
}

#[test]
fn test_drawing_api_rect_and_circle() {
    let palette = PYXEL_PALETTE.to_vec();
    let mut ctx = DrawingContext::new(160, 120, palette);

    // Clear to black
    ctx.cls(0);

    // Draw rect outline
    ctx.rect(10, 10, 20, 20, 7); // white
    assert_eq!(ctx.pget(10, 10), Some(7));
    assert_eq!(ctx.pget(29, 10), Some(7));

    // Draw filled rect
    ctx.rectfill(50, 50, 20, 20, 8); // red
    assert_eq!(ctx.pget(50, 50), Some(8));
    assert_eq!(ctx.pget(60, 60), Some(8));

    // Draw circle
    circle(&mut ctx, 100, 100, 10, 3); // green
    let color = ctx.pget(100, 100);
    assert!(color.is_some());

    // Draw filled circle
    ctx.circfill(100, 100, 5, 11); // lime
    assert_eq!(ctx.pget(100, 100), Some(11));
}

#[test]
fn test_drawing_api_line() {
    let palette = PYXEL_PALETTE.to_vec();
    let mut ctx = DrawingContext::new(160, 120, palette);

    ctx.cls(0);

    // Draw horizontal line
    ctx.line(10, 50, 60, 50, 7); // white
    assert_eq!(ctx.pget(10, 50), Some(7));
    assert_eq!(ctx.pget(35, 50), Some(7));

    // Draw vertical line
    ctx.line(80, 20, 80, 80, 8); // red
    assert_eq!(ctx.pget(80, 20), Some(8));
    assert_eq!(ctx.pget(80, 50), Some(8));

    // Draw diagonal line
    ctx.line(100, 100, 130, 130, 3); // green
    let color = ctx.pget(115, 115);
    assert!(color.is_some());
}

#[test]
fn test_drawing_api_pset_pget() {
    let palette = PYXEL_PALETTE.to_vec();
    let mut ctx = DrawingContext::new(160, 120, palette);

    ctx.cls(0);

    // Set individual pixels
    ctx.pset(50, 50, 7); // white
    ctx.pset(60, 60, 8); // red
    ctx.pset(70, 70, 3); // green

    assert_eq!(ctx.pget(50, 50), Some(7));
    assert_eq!(ctx.pget(60, 60), Some(8));
    assert_eq!(ctx.pget(70, 70), Some(3));

    // Test out of bounds
    assert_eq!(ctx.pget(-1, 0), None);
    assert_eq!(ctx.pget(160, 120), None);
}

#[test]
fn test_input_api_btn() {
    let mut input = InputState::new();

    // No keys pressed initially
    assert!(!input.btn(Key::Up));
    assert!(!input.btn(Key::Down));

    // Press keys
    input.press_key(Key::Up);
    input.press_key(Key::Left);

    assert!(input.btn(Key::Up));
    assert!(input.btn(Key::Left));
    assert!(!input.btn(Key::Down));
}

#[test]
fn test_input_api_btnp() {
    let mut input = InputState::new();

    // No keys pressed
    assert!(!input.btnp(Key::Up));

    // Press a key - should detect as new press
    input.press_key(Key::Up);
    assert!(input.btnp(Key::Up));

    // Update frame - btnp should clear
    input.update_frame();
    assert!(!input.btnp(Key::Up));

    // But btn should still return true
    assert!(input.btn(Key::Up));

    // Press again in new frame
    input.press_key(Key::Down);
    assert!(input.btnp(Key::Down));
}

#[test]
fn test_input_api_multiple_keys() {
    let mut input = InputState::new();

    // Simulate a complex input sequence
    input.press_key(Key::W);
    input.press_key(Key::A);
    assert!(input.btn(Key::W));
    assert!(input.btn(Key::A));
    assert!(input.btnp(Key::W));
    assert!(input.btnp(Key::A));

    input.update_frame();
    assert!(input.btn(Key::W));
    assert!(input.btn(Key::A));
    assert!(!input.btnp(Key::W));
    assert!(!input.btnp(Key::A));

    // Release one key
    input.release_key(Key::W);
    assert!(!input.btn(Key::W));
    assert!(input.btn(Key::A));
}

#[test]
fn test_pyxel_palette() {
    assert_eq!(PYXEL_PALETTE.len(), 16);

    // Verify key colors
    assert_eq!(PYXEL_PALETTE[0], [0, 0, 0, 255]); // black
    assert_eq!(PYXEL_PALETTE[7], [255, 255, 255, 255]); // white
    assert_eq!(PYXEL_PALETTE[8], [255, 0, 77, 255]); // red
    assert_eq!(PYXEL_PALETTE[3], [0, 135, 81, 255]); // green
}

#[test]
fn test_palette_customization() {
    let palette = PYXEL_PALETTE.to_vec();
    let mut ctx = DrawingContext::new(160, 120, palette);

    // Customize a color
    ctx.set_palette(0, 255, 0, 0, 255); // Change black to red
    assert_eq!(ctx.palette[0], [255, 0, 0, 255]);

    // Draw with customized palette
    ctx.pset(50, 50, 0);
    let color = ctx.pget(50, 50);
    assert_eq!(color, Some(0)); // Should still be index 0
}
