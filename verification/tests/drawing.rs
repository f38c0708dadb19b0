use nantaraquad::api::drawing::{DrawingContext, PYXEL_PALETTE};

#[test]
fn test_drawing_context_creation() {
    let palette = PYXEL_PALETTE.to_vec();
    let ctx = DrawingContext::new(160, 120, palette);
    assert_eq!(ctx.width, 160);
    assert_eq!(ctx.height, 120);
}

#[test]
fn test_rect_drawing() {
    let palette = PYXEL_PALETTE.to_vec();
    let mut ctx = DrawingContext::new(160, 120, palette);
    ctx.rect(10, 10, 20, 20, 7); // white
    let color = ctx.pget(10, 10);
    assert_eq!(color, Some(7));
}

#[test]
fn test_rectfill_drawing() {
    let palette = PYXEL_PALETTE.to_vec();
    let mut ctx = DrawingContext::new(160, 120, palette);
    ctx.rectfill(10, 10, 10, 10, 8); // red
    assert_eq!(ctx.pget(10, 10), Some(8));
    assert_eq!(ctx.pget(15, 15), Some(8));
}

#[test]
fn test_pset_pget() {
    let palette = PYXEL_PALETTE.to_vec();
    let mut ctx = DrawingContext::new(160, 120, palette);
    ctx.pset(50, 50, 3); // green
    assert_eq!(ctx.pget(50, 50), Some(3));
    assert_eq!(ctx.pget(51, 50), None);
}

#[test]
fn test_cls() {
    let palette = PYXEL_PALETTE.to_vec();
    let mut ctx = DrawingContext::new(160, 120, palette);
    ctx.rectfill(0, 0, 160, 120, 8); // fill with red
    ctx.cls(0); // clear to black
    assert_eq!(ctx.pget(80, 60), Some(0));
}

#[test]
fn test_set_palette() {
    let palette = PYXEL_PALETTE.to_vec();
    let mut ctx = DrawingContext::new(160, 120, palette);
    ctx.set_palette(0, 255, 255, 0, 255); // yellow
    assert_eq!(ctx.palette[0], [255, 255, 0, 255]);
}
