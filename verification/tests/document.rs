use nantaraquad::editor::command::validate_command;
use nantaraquad::editor::document::{EditCommand, EditCommandHistory, SpriteDocument};
use nantaraquad::editor::layers::BlendMode;
use nantaraquad::sprite::{ColorMode, SpriteData};

fn doc() -> SpriteDocument {
    let sprite = SpriteData::new(32, 32, ColorMode::FullColor);
    SpriteDocument::new(0, "Test", sprite)
}

#[test]
fn test_set_opacity_apply() {
    let mut doc = doc();
    let cmd = EditCommand::SetLayerOpacity {
        layer_id: 0,
        old_opacity_bits: 1.0f32.to_bits(),
        new_opacity_bits: 0.5f32.to_bits(),
    };
    assert!(cmd.apply(&mut doc).is_ok());
    assert_eq!(f32::from_bits(doc.layers.active_layer().unwrap().opacity_bits), 0.5);
}

#[test]
fn test_set_opacity_revert() {
    let mut doc = doc();
    let cmd = EditCommand::SetLayerOpacity {
        layer_id: 0,
        old_opacity_bits: 1.0f32.to_bits(),
        new_opacity_bits: 0.5f32.to_bits(),
    };
    cmd.apply(&mut doc).unwrap();
    cmd.revert(&mut doc).unwrap();
    assert_eq!(f32::from_bits(doc.layers.active_layer().unwrap().opacity_bits), 1.0);
}

#[test]
fn test_set_visibility_apply() {
    let mut doc = doc();
    let cmd = EditCommand::SetLayerVisibility { layer_id: 0, old_visible: true, new_visible: false };
    assert!(cmd.apply(&mut doc).is_ok());
    assert!(!doc.layers.active_layer().unwrap().visible);
}

#[test]
fn test_validate_empty_paint_stroke() {
    let cmd = EditCommand::PaintStroke { layer_id: 0, pixels: vec![] };
    assert!(validate_command(&cmd).is_err());
}

#[test]
fn test_validate_invalid_opacity() {
    let cmd = EditCommand::SetLayerOpacity {
        layer_id: 0,
        old_opacity_bits: 1.0f32.to_bits(),
        new_opacity_bits: 1.5f32.to_bits(),
    };
    assert!(validate_command(&cmd).is_err());
}

#[test]
fn test_document_creation() {
    let doc = doc();
    assert_eq!(doc.id, 0);
    assert_eq!(doc.name, "Test");
    assert!(doc.layers.active_layer().is_some());
    assert!(!doc.can_undo());
}

#[test]
fn test_command_history() {
    let mut doc = doc();
    let cmd = EditCommand::SetLayerOpacity {
        layer_id: 0,
        old_opacity_bits: 1.0f32.to_bits(),
        new_opacity_bits: 0.5f32.to_bits(),
    };
    doc.record_edit(cmd);
    assert!(doc.can_undo());
    assert!(!doc.can_redo());

    doc.undo();
    assert!(!doc.can_undo());
    assert!(doc.can_redo());

    doc.redo();
    assert!(doc.can_undo());
}

#[test]
fn test_composite_cache() {
    let mut doc = doc();
    assert!(doc.is_composite_dirty());

    // the one visible layer is the composite
    let fresh = Some(doc.layers.layers()[0].sprite.copy());
    let _ = doc.get_composite_sprite(fresh);
    assert!(!doc.is_composite_dirty());

    doc.invalidate_composite();
    assert!(doc.is_composite_dirty());
}

fn message(r: Result<(), nantaraquad::editor::command::CommandExecutionError>) -> String {
    r.err().map(|e| e.message).unwrap_or_default()
}

#[test]
fn paint_stroke_paints_in_order_and_stops_at_a_bad_pixel() {
    let mut doc = doc();
    let ok = EditCommand::PaintStroke { layer_id: 0, pixels: vec![(1, 1, vec![1, 2, 3, 4]), (1, 1, vec![5, 6, 7, 8])] };
    assert!(ok.apply(&mut doc).is_ok());
    assert_eq!(doc.layers.layers()[0].sprite.get_pixel(1, 1), Some(vec![5, 6, 7, 8]));
    assert!(doc.is_composite_dirty());

    let _ = doc.get_composite_sprite(Some(SpriteData::new(32, 32, ColorMode::FullColor)));
    let bad = EditCommand::PaintStroke {
        layer_id: 0,
        pixels: vec![(2, 2, vec![9, 9, 9, 9]), (40, 0, vec![1, 1, 1, 1]), (3, 3, vec![7, 7, 7, 7])],
    };
    assert_eq!(message(bad.apply(&mut doc)), "Failed to paint pixel: Pixel out of bounds");
    assert_eq!(doc.layers.layers()[0].sprite.get_pixel(2, 2), Some(vec![9, 9, 9, 9]));
    assert_eq!(doc.layers.layers()[0].sprite.get_pixel(3, 3), Some(vec![0, 0, 0, 0]));
    assert!(!doc.is_composite_dirty());

    let short = EditCommand::PaintStroke { layer_id: 0, pixels: vec![(0, 0, vec![1, 2])] };
    assert_eq!(message(short.apply(&mut doc)), "Failed to paint pixel: Invalid pixel data size");
}

#[test]
fn commands_on_missing_layers_and_refused_commands() {
    let mut doc = doc();
    let missing = EditCommand::SetLayerLocked { layer_id: 42, old_locked: false, new_locked: true };
    assert_eq!(message(missing.apply(&mut doc)), "Layer 42 not found");
    assert_eq!(message(missing.revert(&mut doc)), "Layer 42 not found");
    let del = EditCommand::DeleteLayer {
        layer_id: 0,
        layer_data: doc.layers.layers()[0].copy(),
        index: 0,
    };
    assert_eq!(message(del.apply(&mut doc)), "DeleteLayer must be applied via LayerStack API");
    let mv = EditCommand::MoveLayer { layer_id: 0, old_index: 0, new_index: 1 };
    assert_eq!(message(mv.apply(&mut doc)), "MoveLayer must be applied via LayerStack API");
    assert_eq!(message(mv.revert(&mut doc)), "This command type does not support revert yet");
    let dur = EditCommand::SetFrameDuration { clip_id: 0, frame_idx: 0, old_duration: 100, new_duration: 50 };
    assert_eq!(message(dur.apply(&mut doc)), "SetFrameDuration not yet implemented");
    let paint = EditCommand::PaintStroke { layer_id: 0, pixels: vec![(0, 0, vec![1, 1, 1, 1])] };
    assert_eq!(message(paint.revert(&mut doc)), "PaintStroke requires old_colors for proper revert");
}

#[test]
fn lock_does_not_dirty_the_composite_but_blend_mode_does() {
    let mut doc = doc();
    let _ = doc.get_composite_sprite(Some(SpriteData::new(32, 32, ColorMode::FullColor)));
    let lock = EditCommand::SetLayerLocked { layer_id: 0, old_locked: false, new_locked: true };
    lock.apply(&mut doc).unwrap();
    assert!(doc.layers.layers()[0].locked);
    assert!(!doc.is_composite_dirty());
    let blend = EditCommand::SetLayerBlendMode { layer_id: 0, old_mode: BlendMode::Normal, new_mode: BlendMode::Multiply };
    blend.apply(&mut doc).unwrap();
    assert_eq!(doc.layers.layers()[0].blend_mode, BlendMode::Multiply);
    assert!(doc.is_composite_dirty());
    blend.revert(&mut doc).unwrap();
    assert_eq!(doc.layers.layers()[0].blend_mode, BlendMode::Normal);
}

#[test]
fn validate_accepts_what_it_should() {
    let paint = EditCommand::PaintStroke { layer_id: 0, pixels: vec![(0, 0, vec![1, 1, 1, 1])] };
    assert!(validate_command(&paint).is_ok());
    let bad_old = EditCommand::SetLayerOpacity {
        layer_id: 0,
        old_opacity_bits: (-0.1f32).to_bits(),
        new_opacity_bits: 0.5f32.to_bits(),
    };
    assert_eq!(validate_command(&bad_old).err().unwrap().message, "Old opacity must be between 0.0 and 1.0");
    let bad_new = EditCommand::SetLayerOpacity {
        layer_id: 0,
        old_opacity_bits: 0.5f32.to_bits(),
        new_opacity_bits: 1.5f32.to_bits(),
    };
    assert_eq!(validate_command(&bad_new).err().unwrap().message, "Opacity must be between 0.0 and 1.0");
    let edges = EditCommand::SetLayerOpacity { layer_id: 0, old_opacity_bits: 0, new_opacity_bits: 1.0f32.to_bits() };
    assert!(validate_command(&edges).is_ok());
    let vis = EditCommand::SetLayerVisibility { layer_id: 9, old_visible: true, new_visible: false };
    assert!(validate_command(&vis).is_ok());
}

fn vis(n: u32) -> EditCommand {
    EditCommand::SetLayerVisibility { layer_id: n, old_visible: true, new_visible: false }
}

fn layer_of(c: &EditCommand) -> u32 {
    match c {
        EditCommand::SetLayerVisibility { layer_id, .. } => *layer_id,
        _ => u32::MAX,
    }
}

#[test]
fn command_history_undo_redo_and_limit() {
    let mut h = EditCommandHistory::new();
    assert!(h.undo().is_none());
    h.record(vis(1));
    h.record(vis(2));
    assert_eq!(h.undo().map(|c| layer_of(&c)), Some(2));
    assert_eq!(h.redo().map(|c| layer_of(&c)), Some(2));
    assert_eq!(h.undo().map(|c| layer_of(&c)), Some(2));
    h.record(vis(3));
    assert!(!h.can_redo());
    for i in 0..1005 {
        h.record(vis(i));
    }
    let recent = h.get_recent_commands(2000);
    assert_eq!(recent.len(), 1000);
    assert_eq!(layer_of(&recent[0]), 5);
    assert_eq!(layer_of(&recent[999]), 1004);
    let last = h.get_recent_commands(3);
    assert_eq!(last.iter().map(layer_of).collect::<Vec<_>>(), vec![1002, 1003, 1004]);
    h.clear();
    assert!(!h.can_undo() && !h.can_redo());
}

#[test]
fn undo_without_history_leaves_composite_alone() {
    let mut doc = doc();
    let _ = doc.get_composite_sprite(Some(SpriteData::new(32, 32, ColorMode::FullColor)));
    assert!(doc.undo().is_none());
    assert!(!doc.is_composite_dirty());
}

#[test]
fn composite_falls_back_to_active_layer() {
    let mut doc = doc();
    doc.layers.layers_mut()[0].sprite.set_pixel(0, 0, &[4, 3, 2, 1]).unwrap();
    let s = doc.get_composite_sprite(None);
    assert_eq!(s.get_pixel(0, 0), Some(vec![4, 3, 2, 1]));
    assert!(doc.is_composite_dirty());
    assert!(doc.needs_composite());
}

#[test]
fn frames_and_frame_layers() {
    let mut doc = doc();
    assert_eq!(doc.current_frame_num(), 0);
    assert_eq!(doc.get_frame_layers(0).map(|m| m.len()), Some(1));
    assert!(doc.get_frame_layers(1).is_none());
    doc.set_current_frame(5);
    assert_eq!(doc.current_frame_num(), 5);
    doc.set_frame_layers(5, std::collections::HashMap::new());
    assert_eq!(doc.get_frame_layers(5).map(|m| m.len()), Some(0));
    assert_eq!(doc.animations.clips().len(), 1);
    assert_eq!(doc.animations.active_clip().name, "Default");
}

#[test]
fn to_format_describes_layers_clips_and_history() {
    let mut doc = doc();
    doc.layers.add_layer(SpriteData::new(32, 32, ColorMode::FullColor), "Ink");
    doc.record_edit(EditCommand::PaintStroke { layer_id: 1, pixels: vec![(0, 0, vec![1, 1, 1, 1])] });
    doc.record_edit(EditCommand::SetLayerOpacity {
        layer_id: 1,
        old_opacity_bits: 1.0f32.to_bits(),
        new_opacity_bits: 0.5f32.to_bits(),
    });
    doc.record_edit(EditCommand::SetLayerBlendMode { layer_id: 1, old_mode: BlendMode::Normal, new_mode: BlendMode::Add });
    doc.record_edit(vis(1));
    let f = doc.to_format(|b: u32| format!("{:.2}", f32::from_bits(b)));
    assert_eq!(f.version, 1);
    assert_eq!(f.name, "Test");
    assert_eq!(f.layers.len(), 2);
    assert_eq!(f.layers[1].name, "Ink");
    assert_eq!(f.layers[1].default_blend_mode, "Normal");
    assert_eq!(f32::from_bits(f.layers[1].default_opacity_bits), 1.0);
    assert_eq!(f.clips.len(), 1);
    assert_eq!(f.clips[0].name, "Default");
    assert!(f.clips[0].looping);
    assert_eq!(f.clips[0].frames.len(), 1);
    assert_eq!(f.clips[0].frames[0].duration_ms, 100);
    assert_eq!(f.clips[0].frames[0].cels.get(&1).map(|s| s.as_str()), Some("cel_0_1.bin"));
    assert_eq!(f.clips[0].frames[0].cels.len(), 2);
    assert!(f.frames.is_empty());
    let h: Vec<(u64, &str, &str)> =
        f.history.iter().map(|r| (r.timestamp, r.command_type.as_str(), r.description.as_str())).collect();
    assert_eq!(
        h,
        vec![
            (0, "PaintStroke", "Paint on layer 1"),
            (1, "SetOpacity", "Opacity -> 0.50"),
            (2, "SetBlendMode", "Blend -> Add"),
            (3, "Other", "Edit operation"),
        ]
    );
}
