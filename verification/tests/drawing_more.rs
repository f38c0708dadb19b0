use nantaraquad::api::drawing::{DrawingContext, PYXEL_PALETTE};
use nantaraquad::api::pyxel;

fn ctx() -> DrawingContext {
    DrawingContext::new(40, 30, PYXEL_PALETTE.to_vec())
}

#[test]
fn closest_palette_index() {
    let c = ctx();
    assert_eq!(c.find_closest_palette_index(255, 0, 77, 0), 8);
    assert_eq!(c.find_closest_palette_index(250, 5, 70, 255), 8);
    assert_eq!(c.find_closest_palette_index(0, 0, 0, 0), 0);
    assert_eq!(c.index_to_rgba(7), [255, 255, 255, 255]);
    assert_eq!(c.index_to_rgba(16), [0, 0, 0, 0]);
}

#[test]
fn pset_pget_every_palette_colour() {
    let mut c = ctx();
    for i in 0..16u8 {
        c.pset(i as i32, 0, i);
        assert_eq!(c.pget(i as i32, 0), Some(i));
    }
}

#[test]
fn line_end_points_and_diagonal() {
    let mut c = ctx();
    c.cls(0);
    c.line(2, 2, 8, 5, 7);
    assert_eq!(c.pget(2, 2), Some(7));
    assert_eq!(c.pget(8, 5), Some(7));
    c.line(20, 20, 10, 10, 8);
    for k in 10..=20 {
        assert_eq!(c.pget(k, k), Some(8));
    }
}

#[test]
fn rect_outline_leaves_inside() {
    let mut c = ctx();
    c.cls(0);
    c.rect(5, 5, 4, 3, 7);
    assert_eq!(c.pget(5, 5), Some(7));
    assert_eq!(c.pget(8, 7), Some(7));
    assert_eq!(c.pget(6, 6), Some(0));
    c.rect(0, 0, 0, 5, 9);
    assert_eq!(c.pget(0, 0), Some(0));
}

#[test]
fn circfill_disk() {
    let mut c = ctx();
    c.cls(0);
    c.circfill(10, 10, 2, 11);
    assert_eq!(c.pget(12, 10), Some(11));
    assert_eq!(c.pget(11, 11), Some(11));
    assert_eq!(c.pget(12, 12), Some(0));
}

#[test]
fn print_draws_glyph_pixels() {
    let mut c = ctx();
    c.cls(0);
    c.print("A", 10, 10, 7);
    // top row of A is .XX.
    assert_eq!(c.pget(10, 10), Some(0));
    assert_eq!(c.pget(11, 10), Some(7));
    assert_eq!(c.pget(12, 10), Some(7));
    assert_eq!(c.pget(13, 10), Some(0));
    // second row is X..X
    assert_eq!(c.pget(10, 11), Some(7));
}

#[test]
fn pyxel_stubs() {
    pyxel::cls(0);
    pyxel::pset(1, 2, 3);
    assert_eq!(pyxel::pget(1, 2), None);
    assert!(!pyxel::btn(nantaraquad::api::input::Key::Up));
    assert!(!pyxel::btnp(nantaraquad::api::input::Key::Up));
    assert_eq!(pyxel::anim_get_frame(3), 0);
    assert_eq!(pyxel::stat(), "FPS: 60, Frame: 16.67ms");
}
