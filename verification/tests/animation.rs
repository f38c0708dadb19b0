use nantaraquad::editor::animation::{AnimationClip, AnimationController, Frame, PlaybackState};
use nantaraquad::editor::layers::LayerStack;
use nantaraquad::sprite::{ColorMode, SpriteData};

fn create_test_frame(num: u32) -> Frame {
    let sprite = SpriteData::new(32, 32, ColorMode::FullColor);
    let layer_stack = LayerStack::new(sprite);
    Frame::new(num, 100, layer_stack)
}

#[test]
fn test_frame_creation() {
    let frame = create_test_frame(0);
    assert_eq!(frame.frame_num, 0);
    assert_eq!(frame.duration_ms, 100);
}

#[test]
fn test_animation_clip_creation() {
    let frame = create_test_frame(0);
    let clip = AnimationClip::new("Test", frame);
    assert_eq!(clip.name, "Test");
    assert_eq!(clip.frame_count(), 1);
    assert_eq!(clip.playback_state(), PlaybackState::Stopped);
}

#[test]
fn test_animation_playback() {
    let frame0 = create_test_frame(0);
    let frame1 = create_test_frame(1);

    let mut clip = AnimationClip::new("Test", frame0);
    clip.add_frame(frame1);

    assert_eq!(clip.current_frame_idx(), 0);

    clip.play();
    assert_eq!(clip.playback_state(), PlaybackState::Playing);

    clip.pause();
    assert_eq!(clip.playback_state(), PlaybackState::Paused);

    clip.stop();
    assert_eq!(clip.playback_state(), PlaybackState::Stopped);
    assert_eq!(clip.current_frame_idx(), 0);
}

#[test]
fn test_frame_navigation() {
    let frame0 = create_test_frame(0);
    let frame1 = create_test_frame(1);
    let frame2 = create_test_frame(2);

    let mut clip = AnimationClip::new("Test", frame0);
    clip.add_frame(frame1);
    clip.add_frame(frame2);

    clip.set_looping(false);

    assert_eq!(clip.current_frame_idx(), 0);
    clip.next_frame();
    assert_eq!(clip.current_frame_idx(), 1);
    clip.next_frame();
    assert_eq!(clip.current_frame_idx(), 2);

    clip.prev_frame();
    assert_eq!(clip.current_frame_idx(), 1);
}

#[test]
fn test_speed_control() {
    let frame0 = create_test_frame(0);
    let frame1 = create_test_frame(1);

    let mut clip = AnimationClip::new("Test", frame0);
    clip.add_frame(frame1);

    clip.set_speed(2.0f32.to_bits());
    assert_eq!(f32::from_bits(clip.speed_bits()), 2.0);

    clip.set_speed(0.05f32.to_bits()); // clamped
    assert_eq!(f32::from_bits(clip.speed_bits()), 0.1);

    clip.set_speed(5.0f32.to_bits()); // clamped
    assert_eq!(f32::from_bits(clip.speed_bits()), 4.0);
}

#[test]
fn test_animation_controller() {
    let frame = create_test_frame(0);
    let clip1 = AnimationClip::new("Walk", frame.clone());
    let clip2 = AnimationClip::new("Run", frame);

    let mut controller = AnimationController::new(clip1);
    controller.add_clip(clip2);

    assert_eq!(controller.clips().len(), 2);

    assert!(controller.select_clip("Run"));
    assert_eq!(controller.active_clip().name, "Run");

    assert!(!controller.select_clip("NonExistent"));
}

fn clip_of(n: u32) -> AnimationClip {
    let mut clip = AnimationClip::new("C", create_test_frame(0));
    for i in 1..n {
        clip.add_frame(create_test_frame(i));
    }
    clip
}

#[test]
fn looping_navigation_wraps_both_ways() {
    let mut clip = clip_of(3);
    assert!(clip.is_looping());
    clip.prev_frame();
    assert_eq!(clip.current_frame_idx(), 2);
    clip.next_frame();
    assert_eq!(clip.current_frame_idx(), 0);
    clip.next_frame();
    clip.prev_frame();
    assert_eq!(clip.current_frame_idx(), 0);
}

#[test]
fn non_looping_navigation_stays_at_the_ends() {
    let mut clip = clip_of(2);
    clip.set_looping(false);
    clip.prev_frame();
    assert_eq!(clip.current_frame_idx(), 0);
    clip.next_frame();
    clip.next_frame();
    assert_eq!(clip.current_frame_idx(), 1);
}

#[test]
fn set_frame_checks_the_index() {
    let mut clip = clip_of(3);
    assert!(clip.set_frame(2));
    assert_eq!(clip.current_frame_idx(), 2);
    assert!(!clip.set_frame(3));
    assert_eq!(clip.current_frame_idx(), 2);
    assert_eq!(clip.current_frame().frame_num, 2);
}

#[test]
fn frame_end_step_advances_loops_or_stops() {
    let mut clip = clip_of(2);
    clip.play();
    assert!(clip.advance_on_frame_end());
    assert_eq!(clip.current_frame_idx(), 1);
    assert!(clip.advance_on_frame_end());
    assert_eq!(clip.current_frame_idx(), 0);
    clip.set_looping(false);
    assert!(clip.advance_on_frame_end());
    assert!(!clip.advance_on_frame_end());
    assert_eq!(clip.playback_state(), PlaybackState::Stopped);
    assert_eq!(clip.current_frame_idx(), 1);
}

#[test]
fn total_duration_and_reset() {
    let mut clip = clip_of(3);
    assert_eq!(clip.total_duration_ms(), 300);
    clip.play();
    clip.set_elapsed_bits(42.0f32.to_bits());
    clip.next_frame();
    assert_eq!(clip.elapsed_bits(), 0);
    clip.reset();
    assert_eq!(clip.current_frame_idx(), 0);
    assert_eq!(clip.playback_state(), PlaybackState::Stopped);
}

#[test]
fn select_clip_by_index_stops_it() {
    let mut controller = AnimationController::new(clip_of(2));
    let mut second = clip_of(2);
    second.set_frame(1);
    second.play();
    controller.add_clip(second);
    assert!(controller.select_clip_by_idx(1));
    assert_eq!(controller.active_clip().playback_state(), PlaybackState::Stopped);
    assert_eq!(controller.active_clip().current_frame_idx(), 0);
    assert!(!controller.select_clip_by_idx(2));
    controller.active_clip_mut().set_looping(false);
    assert!(!controller.clips()[1].is_looping());
}
