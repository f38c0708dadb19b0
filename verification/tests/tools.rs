use nantaraquad::api;
use nantaraquad::editor::tools::{BucketFillTool, ColorPickerTool, EraserTool};
use nantaraquad::engine::Engine;

fn engine_with(w: u32, h: u32) -> Engine {
    let mut e = Engine::new();
    api::create_sprite(&mut e, w, h);
    e
}

#[test]
fn eraser_clears_pixel() {
    let mut e = engine_with(4, 4);
    api::set_pixel(&mut e, 0, 2, 2, &[9, 9, 9, 9]).unwrap();
    assert_eq!(EraserTool::erase(&mut e, 0, 2, 2), Ok(()));
    assert_eq!(api::get_pixel(&e, 0, 2, 2), Some(vec![0, 0, 0, 0]));
    assert_eq!(EraserTool::erase(&mut e, 0, 4, 0), Err("Pixel out of bounds".to_string()));
    assert_eq!(EraserTool::erase(&mut e, 3, 0, 0), Err("Invalid sprite ID".to_string()));
}

#[test]
fn eraser_rect_in_any_corner_order() {
    let mut e = engine_with(4, 4);
    for y in 0..4 {
        for x in 0..4 {
            api::set_pixel(&mut e, 0, x, y, &[5, 5, 5, 5]).unwrap();
        }
    }
    assert_eq!(EraserTool::erase_rect(&mut e, 0, 2, 2, 1, 1), Ok(()));
    for y in 0..4 {
        for x in 0..4 {
            let inside = (1..=2).contains(&x) && (1..=2).contains(&y);
            let want = if inside { vec![0, 0, 0, 0] } else { vec![5, 5, 5, 5] };
            assert_eq!(api::get_pixel(&e, 0, x, y), Some(want));
        }
    }
}

#[test]
fn eraser_rect_stops_at_sprite_edge() {
    let mut e = engine_with(3, 3);
    for y in 0..3 {
        for x in 0..3 {
            api::set_pixel(&mut e, 0, x, y, &[5, 5, 5, 5]).unwrap();
        }
    }
    // the first row is erased up to the edge, then the error is returned
    assert_eq!(EraserTool::erase_rect(&mut e, 0, 1, 1, 5, 2), Err("Pixel out of bounds".to_string()));
    assert_eq!(api::get_pixel(&e, 0, 1, 1), Some(vec![0, 0, 0, 0]));
    assert_eq!(api::get_pixel(&e, 0, 2, 1), Some(vec![0, 0, 0, 0]));
    assert_eq!(api::get_pixel(&e, 0, 1, 2), Some(vec![5, 5, 5, 5]));
}

#[test]
fn bucket_fill_stops_at_other_colour() {
    let mut e = engine_with(5, 5);
    // a vertical wall at x == 2
    for y in 0..5 {
        api::set_pixel(&mut e, 0, 2, y, &[1, 1, 1, 255]).unwrap();
    }
    assert_eq!(BucketFillTool::fill(&mut e, 0, 0, 0, &[200, 0, 0, 255], 5, 5), Ok(()));
    for y in 0..5 {
        for x in 0..5 {
            let want = if x < 2 {
                vec![200, 0, 0, 255]
            } else if x == 2 {
                vec![1, 1, 1, 255]
            } else {
                vec![0, 0, 0, 0]
            };
            assert_eq!(api::get_pixel(&e, 0, x, y), Some(want), "pixel ({}, {})", x, y);
        }
    }
}

#[test]
fn bucket_fill_limited_to_area() {
    let mut e = engine_with(4, 4);
    assert_eq!(BucketFillTool::fill(&mut e, 0, 0, 0, &[7, 7, 7, 7], 2, 4), Ok(()));
    assert_eq!(api::get_pixel(&e, 0, 1, 3), Some(vec![7, 7, 7, 7]));
    assert_eq!(api::get_pixel(&e, 0, 2, 0), Some(vec![0, 0, 0, 0]));
}

#[test]
fn bucket_fill_same_colour_and_bad_start() {
    let mut e = engine_with(3, 3);
    let before = e.sprites[0].pixels.clone();
    assert_eq!(BucketFillTool::fill(&mut e, 0, 1, 1, &[0, 0, 0, 0], 3, 3), Ok(()));
    assert_eq!(e.sprites[0].pixels, before);
    assert_eq!(
        BucketFillTool::fill(&mut e, 0, 3, 0, &[1, 2, 3, 4], 3, 3),
        Err("Invalid pixel position".to_string())
    );
    assert_eq!(
        BucketFillTool::fill(&mut e, 9, 0, 0, &[1, 2, 3, 4], 3, 3),
        Err("Invalid pixel position".to_string())
    );
}

#[test]
fn colour_picker_reads_pixel() {
    let mut e = engine_with(2, 2);
    api::set_pixel(&mut e, 0, 1, 0, &[4, 3, 2, 1]).unwrap();
    assert_eq!(ColorPickerTool::pick_color(&e, 0, 1, 0), Some(vec![4, 3, 2, 1]));
    assert_eq!(ColorPickerTool::pick_color(&e, 0, 2, 0), None);
    assert_eq!(ColorPickerTool::pick_color(&e, 1, 0, 0), None);
}

#[test]
fn erase_rect_errors_name_the_first_failing_write() {
    let mut e = engine_with(4, 4);
    assert_eq!(EraserTool::erase_rect(&mut e, 3, 0, 0, 1, 1), Err("Invalid sprite ID".to_string()));
    let id = api::create_indexed_sprite(&mut e, 4, 4, vec![[0, 0, 0, 255]]);
    assert_eq!(EraserTool::erase_rect(&mut e, id, 0, 0, 1, 1), Err("Invalid pixel data size".to_string()));
    assert_eq!(EraserTool::erase_rect(&mut e, id, 9, 9, 1, 1), Err("Invalid pixel data size".to_string()));
    assert_eq!(EraserTool::erase_rect(&mut e, id, 9, 9, 5, 5), Err("Pixel out of bounds".to_string()));
    assert_eq!(EraserTool::erase(&mut e, 7, 0, 0), Err("Invalid sprite ID".to_string()));
}
