use nantaraquad::api;
use nantaraquad::engine::Engine;
use nantaraquad::sprite::{ColorMode, SpriteData};

#[test]
fn sprite_read_gives_back_write() {
    let mut s = SpriteData::new(4, 3, ColorMode::FullColor);
    assert_eq!(s.set_pixel(2, 1, &[10, 20, 30, 40]), Ok(()));
    assert_eq!(s.get_pixel(2, 1), Some(vec![10, 20, 30, 40]));
    // other pixels read as transparent black
    assert_eq!(s.get_pixel(1, 1), Some(vec![0, 0, 0, 0]));
    assert_eq!(s.get_pixel(3, 2), Some(vec![0, 0, 0, 0]));
}

#[test]
fn sprite_storage_grows_to_written_pixel() {
    let mut s = SpriteData::new(4, 3, ColorMode::FullColor);
    assert_eq!(s.pixels.len(), 0);
    s.set_pixel(1, 1, &[1, 2, 3, 4]).unwrap();
    assert_eq!(s.pixels.len(), (1 * 4 + 1) * 4 + 4);
    s.set_pixel(0, 0, &[9, 9, 9, 9]).unwrap();
    assert_eq!(s.pixels.len(), 24);
    assert_eq!(&s.pixels[0..4], &[9, 9, 9, 9]);
}

#[test]
fn sprite_set_pixel_errors() {
    let mut s = SpriteData::new(2, 2, ColorMode::FullColor);
    assert_eq!(s.set_pixel(2, 0, &[1, 2, 3, 4]), Err("Pixel out of bounds".to_string()));
    assert_eq!(s.set_pixel(0, 5, &[1, 2, 3, 4]), Err("Pixel out of bounds".to_string()));
    assert_eq!(s.set_pixel(0, 0, &[1, 2, 3]), Err("Invalid pixel data size".to_string()));
    assert_eq!(s.pixels.len(), 0);
    assert_eq!(s.get_pixel(2, 0), None);
}

#[test]
fn indexed_sprite_one_byte_per_pixel() {
    let mut s = SpriteData::new(3, 3, ColorMode::Indexed256(vec![[0, 0, 0, 255], [255, 0, 0, 255]]));
    assert_eq!(s.bytes_per_pixel(), 1);
    assert_eq!(s.set_pixel(1, 1, &[1]), Ok(()));
    assert_eq!(s.get_pixel(1, 1), Some(vec![1]));
    assert_eq!(s.set_pixel(1, 1, &[1, 2, 3, 4]), Err("Invalid pixel data size".to_string()));
    assert_eq!(s.pixels.len(), 5);
}

#[test]
fn sprite_well_formedness() {
    let s = SpriteData::new(2, 2, ColorMode::FullColor);
    assert!(s.is_well_formed());
    let too_long = SpriteData { width: 1, height: 1, mode: ColorMode::FullColor, pixels: vec![0; 5] };
    assert!(!too_long.is_well_formed());
}

#[test]
fn engine_ids_and_errors() {
    let mut e = Engine::new();
    let a = api::create_sprite(&mut e, 8, 8);
    let b = api::create_indexed_sprite(&mut e, 4, 4, vec![[0, 0, 0, 255]]);
    assert_eq!((a, b), (0, 1));
    assert_eq!(api::sprite_count(&e), 2);
    assert_eq!(api::set_pixel(&mut e, 0, 1, 1, &[255, 0, 0, 255]), Ok(()));
    assert_eq!(api::get_pixel(&e, 0, 1, 1), Some(vec![255, 0, 0, 255]));
    assert_eq!(api::set_pixel(&mut e, 7, 0, 0, &[1, 2, 3, 4]), Err("Invalid sprite ID".to_string()));
    assert_eq!(api::get_pixel(&e, 7, 0, 0), None);
    assert_eq!(api::set_pixel(&mut e, 1, 0, 0, &[255, 0, 0, 255]), Err("Invalid pixel data size".to_string()));
    // a failed write leaves the sprite as it was
    assert_eq!(e.sprites[1].pixels.len(), 0);
}

#[test]
fn engine_load_sprite_registers_in_order() {
    let mut e = Engine::new();
    api::create_sprite(&mut e, 2, 2);
    assert_eq!(api::load_sprite(&mut e, Vec::new()), Err("No sprites in package".to_string()));
    assert_eq!(api::sprite_count(&e), 1);
    let s1 = SpriteData::new(1, 1, ColorMode::FullColor);
    let s2 = SpriteData::new(5, 6, ColorMode::FullColor);
    assert_eq!(api::load_sprite(&mut e, vec![s1, s2]), Ok(1));
    assert_eq!(api::sprite_count(&e), 3);
    assert_eq!((e.sprites[1].width, e.sprites[2].width, e.sprites[2].height), (1, 5, 6));
}
