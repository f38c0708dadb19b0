use nantaraquad::editor::celmodel::{Cel, LayerDef, nQFrame};
use nantaraquad::editor::layers::BlendMode;
use nantaraquad::sprite::{ColorMode, SpriteData};

#[test]
fn test_cel_creation() {
    let pixels = SpriteData::new(32, 32, ColorMode::FullColor);
    let cel = Cel::new(0, pixels);

    assert_eq!(cel.layer_id, 0);
    assert!(cel.visible);
    assert!(cel.opacity_override_bits.is_none());
}

#[test]
fn test_frame_add_cel() {
    let mut frame = nQFrame::new(0, 100);
    let pixels = SpriteData::new(32, 32, ColorMode::FullColor);
    let cel = Cel::new(0, pixels);

    frame.add_cel(cel);
    assert_eq!(frame.cels.len(), 1);
    assert!(frame.get_cel(0).is_some());
}

#[test]
fn test_frame_layer_ids() {
    let mut frame = nQFrame::new(0, 100);
    let pixels = SpriteData::new(32, 32, ColorMode::FullColor);

    frame.add_cel(Cel::new(2, pixels.clone()));
    frame.add_cel(Cel::new(0, pixels.clone()));
    frame.add_cel(Cel::new(1, pixels));

    assert_eq!(frame.layer_ids(), vec![0, 1, 2]);
}

#[test]
fn test_effective_opacity() {
    let pixels = SpriteData::new(32, 32, ColorMode::FullColor);
    let mut cel = Cel::new(0, pixels);

    assert_eq!(f32::from_bits(cel.effective_opacity(1.0f32.to_bits())), 1.0);

    cel.opacity_override_bits = Some(0.5f32.to_bits());
    assert_eq!(f32::from_bits(cel.effective_opacity(1.0f32.to_bits())), 0.5);
}

#[test]
fn adding_a_cel_of_the_same_layer_replaces_it() {
    let mut frame = nQFrame::new(3, 50);
    frame.add_cel(Cel::new(4, SpriteData::new(1, 1, ColorMode::FullColor)));
    frame.add_cel(Cel::new(4, SpriteData::new(2, 2, ColorMode::FullColor)));
    assert_eq!(frame.cels().len(), 1);
    assert_eq!(frame.get_cel(4).unwrap().pixels.width, 2);
    assert!(frame.get_cel(5).is_none());
}

#[test]
fn remove_visible_mut_and_duplicate() {
    let mut frame = nQFrame::new(0, 100);
    for id in [5, 1, 3] {
        frame.add_cel(Cel::new(id, SpriteData::new(1, 1, ColorMode::FullColor)));
    }
    if let Some(c) = frame.get_cel_mut(1) {
        c.visible = false;
        c.blend_override = Some(BlendMode::Add);
    }
    let shown: Vec<u32> = frame.visible_cels().iter().map(|c| c.layer_id).collect();
    assert_eq!(shown, vec![5, 3]);
    assert_eq!(frame.get_cel(1).unwrap().effective_blend(BlendMode::Normal), BlendMode::Add);
    assert_eq!(frame.get_cel(5).unwrap().effective_blend(BlendMode::Screen), BlendMode::Screen);
    let copy = frame.duplicate();
    assert_eq!(copy.layer_ids(), vec![1, 3, 5]);
    assert_eq!(frame.remove_cel(3).map(|c| c.layer_id), Some(3));
    assert!(frame.remove_cel(3).is_none());
    assert_eq!(frame.layer_ids(), vec![1, 5]);
    assert_eq!(copy.cels.len(), 3);
}

#[test]
fn layer_def_defaults() {
    let d = LayerDef::new(2, "Ink");
    assert_eq!(d.name, "Ink");
    assert_eq!(f32::from_bits(d.default_opacity_bits), 1.0);
    assert_eq!(d.default_blend, BlendMode::Normal);
}

#[test]
fn adding_leaves_other_layers_alone() {
    let mut frame = nQFrame::new(3, 50);
    let mut a = Cel::new(1, SpriteData::new(2, 2, ColorMode::FullColor));
    a.visible = false;
    frame.add_cel(a);
    frame.add_cel(Cel::new(2, SpriteData::new(4, 4, ColorMode::FullColor)));
    frame.add_cel(Cel::new(1, SpriteData::new(8, 8, ColorMode::FullColor)));
    assert_eq!(frame.cels.len(), 2);
    assert_eq!(frame.get_cel(1).unwrap().pixels.width, 8);
    assert!(frame.get_cel(1).unwrap().visible);
    assert_eq!(frame.get_cel(2).unwrap().pixels.width, 4);
    assert!(frame.get_cel(3).is_none());
}
