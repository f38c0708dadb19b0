use nantaraquad::editor::filters::Filters;
use nantaraquad::sprite::{ColorMode, SpriteData};

#[test]
fn invert_flips_rgb_keeps_alpha() {
    let mut s = SpriteData::new(2, 1, ColorMode::FullColor);
    s.set_pixel(0, 0, &[0, 100, 255, 7]).unwrap();
    s.set_pixel(1, 0, &[1, 2, 3, 4]).unwrap();
    assert_eq!(Filters::invert(&mut s), Ok(()));
    assert_eq!(s.get_pixel(0, 0), Some(vec![255, 155, 0, 7]));
    assert_eq!(s.get_pixel(1, 0), Some(vec![254, 253, 252, 4]));
}

#[test]
fn invert_twice_is_identity() {
    let mut s = SpriteData::new(3, 3, ColorMode::FullColor);
    s.set_pixel(2, 2, &[9, 80, 160, 200]).unwrap();
    let before = s.pixels.clone();
    Filters::invert(&mut s).unwrap();
    Filters::invert(&mut s).unwrap();
    assert_eq!(s.pixels, before);
}

#[test]
fn invert_leaves_partial_pixel() {
    let mut s = SpriteData { width: 2, height: 1, mode: ColorMode::FullColor, pixels: vec![10, 10, 10, 10, 20, 20] };
    Filters::invert(&mut s).unwrap();
    assert_eq!(s.pixels, vec![245, 245, 245, 10, 20, 20]);
}

#[test]
fn filters_refuse_indexed_sprites() {
    let mut s = SpriteData::new(3, 3, ColorMode::Indexed256(vec![[0, 0, 0, 255]]));
    assert_eq!(Filters::invert(&mut s), Err("Invert not supported for Indexed256 mode".to_string()));
    assert_eq!(Filters::blur(&mut s), Err("Blur not supported for Indexed256 mode".to_string()));
}

#[test]
fn blur_averages_three_by_three() {
    let mut s = SpriteData::new(3, 3, ColorMode::FullColor);
    for y in 0..3 {
        for x in 0..3 {
            s.set_pixel(x, y, &[0, 0, 0, 0]).unwrap();
        }
    }
    s.set_pixel(0, 0, &[90, 9, 0, 255]).unwrap();
    assert_eq!(Filters::blur(&mut s), Ok(()));
    // the centre becomes the mean of its block; border pixels keep their bytes
    assert_eq!(s.get_pixel(1, 1), Some(vec![10, 1, 0, 28]));
    assert_eq!(s.get_pixel(0, 0), Some(vec![90, 9, 0, 255]));
    assert_eq!(s.get_pixel(2, 2), Some(vec![0, 0, 0, 0]));
}

#[test]
fn blur_counts_only_stored_neighbours() {
    let mut s = SpriteData::new(3, 3, ColorMode::FullColor);
    // stored up to and including the centre pixel (index 4)
    for i in 0..5u32 {
        s.set_pixel(i % 3, i / 3, &[(i * 10) as u8, 0, 0, 0]).unwrap();
    }
    assert_eq!(s.pixels.len(), 20);
    Filters::blur(&mut s).unwrap();
    // (0 + 10 + 20 + 30 + 40) / 5
    assert_eq!(s.get_pixel(1, 1), Some(vec![20, 0, 0, 0]));
}
