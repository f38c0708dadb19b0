use nantaraquad::editor::layers::{BlendMode, Layer, LayerStack};
use nantaraquad::sprite::{ColorMode, SpriteData};

#[test]
fn test_layer_creation() {
    let sprite = SpriteData::new(32, 32, ColorMode::FullColor);
    let layer = Layer::new(0, "Test", sprite);
    assert_eq!(layer.id, 0);
    assert_eq!(layer.name, "Test");
    assert!(layer.visible);
    assert_eq!(f32::from_bits(layer.opacity_bits), 1.0);
}

#[test]
fn test_layer_stack() {
    let sprite = SpriteData::new(32, 32, ColorMode::FullColor);
    let mut stack = LayerStack::new(sprite.clone());

    assert_eq!(stack.layers().len(), 1);
    assert_eq!(stack.active_layer_idx(), 0);

    stack.add_layer(sprite.clone(), "Layer 1");
    assert_eq!(stack.layers().len(), 2);
    assert_eq!(stack.active_layer_idx(), 1);
}

#[test]
fn test_layer_visibility() {
    let sprite = SpriteData::new(32, 32, ColorMode::FullColor);
    let mut stack = LayerStack::new(sprite.clone());

    if let Some(layer) = stack.active_layer_mut() {
        layer.visible = false;
    }

    assert!(!stack.active_layer().unwrap().visible);
}

#[test]
fn test_layer_movement() {
    let sprite = SpriteData::new(32, 32, ColorMode::FullColor);
    let mut stack = LayerStack::new(sprite.clone());

    stack.add_layer(sprite.clone(), "Layer 1");
    stack.add_layer(sprite.clone(), "Layer 2");

    assert_eq!(stack.active_layer_idx(), 2);

    assert!(stack.move_layer_down());
    assert_eq!(stack.active_layer_idx(), 1);

    assert!(stack.move_layer_up());
    assert_eq!(stack.active_layer_idx(), 2);
}

#[test]
fn test_layer_deletion() {
    let sprite = SpriteData::new(32, 32, ColorMode::FullColor);
    let mut stack = LayerStack::new(sprite.clone());

    stack.add_layer(sprite.clone(), "Layer 1");
    assert_eq!(stack.layers().len(), 2);

    assert!(stack.delete_active_layer());
    assert_eq!(stack.layers().len(), 1);

    // the last layer cannot be deleted
    assert!(!stack.delete_active_layer());
    assert_eq!(stack.layers().len(), 1);
}

#[test]
fn test_opacity_clamping() {
    let sprite = SpriteData::new(32, 32, ColorMode::FullColor);
    let mut layer = Layer::new(0, "Test", sprite);

    layer.set_opacity(1.5f32.to_bits());
    assert_eq!(f32::from_bits(layer.opacity_bits), 1.0);

    layer.set_opacity((-0.5f32).to_bits());
    assert_eq!(f32::from_bits(layer.opacity_bits), 0.0);
}

fn ids(stack: &LayerStack) -> Vec<u32> {
    stack.layers().iter().map(|l| l.id).collect()
}

#[test]
fn opacity_inside_range_and_nan_are_kept() {
    let mut layer = Layer::new(3, "L", SpriteData::new(1, 1, ColorMode::FullColor));
    layer.set_opacity(0.25f32.to_bits());
    assert_eq!(f32::from_bits(layer.opacity_bits), 0.25);
    layer.set_opacity(f32::NAN.to_bits());
    assert!(f32::from_bits(layer.opacity_bits).is_nan());
    layer.set_opacity((-0.0f32).to_bits());
    assert_eq!(layer.opacity_bits, (-0.0f32).to_bits());
    layer.set_opacity(f32::INFINITY.to_bits());
    assert_eq!(f32::from_bits(layer.opacity_bits), 1.0);
}

#[test]
fn new_layer_defaults_and_duplicate() {
    let mut sprite = SpriteData::new(2, 2, ColorMode::FullColor);
    sprite.set_pixel(1, 1, &[1, 2, 3, 4]).unwrap();
    let mut layer = Layer::new(7, "Ink", sprite);
    assert_eq!(layer.blend_mode, BlendMode::Normal);
    assert!(!layer.locked);
    layer.visible = false;
    layer.blend_mode = BlendMode::Screen;
    let d = layer.duplicate();
    assert_eq!(d.id, 7);
    assert_eq!(d.name, "Ink Copy");
    assert!(!d.visible);
    assert_eq!(d.blend_mode, BlendMode::Screen);
    assert_eq!(d.sprite.get_pixel(1, 1), Some(vec![1, 2, 3, 4]));
}

#[test]
fn add_inserts_above_active_and_gives_fresh_ids() {
    let s = SpriteData::new(4, 4, ColorMode::FullColor);
    let mut stack = LayerStack::new(s.clone());
    assert_eq!(stack.add_layer(s.clone(), "A"), 1);
    assert_eq!(stack.add_layer(s.clone(), "B"), 2);
    assert!(stack.select_layer(0));
    assert_eq!(stack.add_layer(s.clone(), "C"), 3);
    assert_eq!(ids(&stack), vec![0, 3, 1, 2]);
    assert_eq!(stack.active_layer_idx(), 1);
    assert_eq!(stack.active_layer().unwrap().name, "C");
}

#[test]
fn move_up_then_down_restores_order() {
    let s = SpriteData::new(4, 4, ColorMode::FullColor);
    let mut stack = LayerStack::new(s.clone());
    stack.add_layer(s.clone(), "A");
    stack.add_layer(s.clone(), "B");
    assert!(stack.select_layer(1));
    let before = ids(&stack);
    assert!(stack.move_layer_up());
    assert_eq!(ids(&stack), vec![0, 2, 1]);
    assert!(stack.move_layer_down());
    assert_eq!(ids(&stack), before);
    assert_eq!(stack.active_layer_idx(), 1);
}

#[test]
fn moving_past_the_ends_fails() {
    let s = SpriteData::new(4, 4, ColorMode::FullColor);
    let mut stack = LayerStack::new(s.clone());
    stack.add_layer(s.clone(), "A");
    assert!(!stack.move_layer_up());
    assert!(stack.select_layer(0));
    assert!(!stack.move_layer_down());
    assert_eq!(ids(&stack), vec![0, 1]);
    assert!(!stack.select_layer(2));
    assert_eq!(stack.active_layer_idx(), 0);
}

#[test]
fn delete_after_add_restores_layers() {
    let s = SpriteData::new(4, 4, ColorMode::FullColor);
    let mut stack = LayerStack::new(s.clone());
    stack.add_layer(s.clone(), "A");
    stack.add_layer(s.clone(), "B");
    assert!(stack.select_layer(0));
    let before = ids(&stack);
    stack.add_layer(s.clone(), "X");
    assert!(stack.delete_active_layer());
    assert_eq!(ids(&stack), before);
    assert_eq!(stack.active_layer_idx(), 1);
}

#[test]
fn deleting_the_top_layer_activates_the_one_below() {
    let s = SpriteData::new(4, 4, ColorMode::FullColor);
    let mut stack = LayerStack::new(s.clone());
    stack.add_layer(s.clone(), "A");
    stack.add_layer(s.clone(), "B");
    assert_eq!(stack.active_layer_idx(), 2);
    assert!(stack.delete_active_layer());
    assert_eq!(stack.active_layer_idx(), 1);
    assert_eq!(ids(&stack), vec![0, 1]);
}

#[test]
fn duplicate_active_layer_returns_copied_id() {
    let mut s = SpriteData::new(2, 2, ColorMode::FullColor);
    s.set_pixel(0, 0, &[9, 9, 9, 9]).unwrap();
    let mut stack = LayerStack::new(s);
    assert_eq!(stack.duplicate_active_layer(), 0);
    assert_eq!(ids(&stack), vec![0, 1]);
    let copy = stack.active_layer().unwrap();
    assert_eq!(copy.name, "Background Copy");
    assert_eq!(copy.sprite.get_pixel(0, 0), Some(vec![9, 9, 9, 9]));
}

#[test]
fn layers_mut_changes_in_place() {
    let s = SpriteData::new(2, 2, ColorMode::FullColor);
    let mut stack = LayerStack::new(s.clone());
    stack.add_layer(s, "A");
    stack.layers_mut()[0].locked = true;
    assert!(stack.layers()[0].locked);
    assert!(!stack.layers()[1].locked);
}
