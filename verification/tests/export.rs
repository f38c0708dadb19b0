use nantaraquad::editor::export::{all_same_size, sheet_fits, PngExporter};
use nantaraquad::sprite::{ColorMode, SpriteData};

#[test]
fn rgba_image_of_full_colour_sprite() {
    let mut s = SpriteData::new(2, 2, ColorMode::FullColor);
    s.set_pixel(1, 0, &[1, 2, 3, 4]).unwrap();
    let img = PngExporter::rgba_image(&s);
    assert_eq!(img, vec![0, 0, 0, 0, 1, 2, 3, 4, 0, 0, 0, 0, 0, 0, 0, 0]);
}

#[test]
fn rgba_image_of_indexed_sprite() {
    let mut s = SpriteData::new(3, 1, ColorMode::Indexed256(vec![[10, 20, 30, 255], [40, 50, 60, 128]]));
    s.set_pixel(0, 0, &[1]).unwrap();
    s.set_pixel(1, 0, &[7]).unwrap();
    let img = PngExporter::rgba_image(&s);
    // index 7 is past the palette, pixel 2 is not stored
    assert_eq!(img, vec![40, 50, 60, 128, 0, 0, 0, 0, 0, 0, 0, 0]);
}

#[test]
fn spritesheet_layout() {
    let mut a = SpriteData::new(1, 1, ColorMode::FullColor);
    a.set_pixel(0, 0, &[1, 1, 1, 1]).unwrap();
    let mut b = SpriteData::new(1, 1, ColorMode::FullColor);
    b.set_pixel(0, 0, &[2, 2, 2, 2]).unwrap();
    let mut c = SpriteData::new(1, 1, ColorMode::FullColor);
    c.set_pixel(0, 0, &[3, 3, 3, 3]).unwrap();
    let (w, h, px) = PngExporter::spritesheet(&[a, b, c], 2).unwrap();
    assert_eq!((w, h), (2, 2));
    assert_eq!(px, vec![1, 1, 1, 1, 2, 2, 2, 2, 3, 3, 3, 3, 0, 0, 0, 0]);
}

#[test]
fn spritesheet_errors() {
    assert_eq!(PngExporter::spritesheet(&[], 2), Err("No sprites to export".to_string()));
    let a = SpriteData::new(2, 2, ColorMode::FullColor);
    let b = SpriteData::new(2, 3, ColorMode::FullColor);
    assert!(!all_same_size(&[a.clone(), b.clone()]));
    assert_eq!(PngExporter::spritesheet(&[a.clone(), b], 0), Err("All sprites must have the same size".to_string()));
    assert!(all_same_size(&[a.clone(), a.clone()]));
    assert!(!sheet_fits(&[a.clone()], 0));
    assert!(sheet_fits(&[a.clone()], 3));
}
