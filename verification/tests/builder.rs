use sprite_animation::components::AnimationError;
use sprite_animation::components::Animator;
use sprite_animation::components::AnimatorBuilder;
use sprite_animation::components::Frame;
use sprite_animation::components::RepeatMode;
use sprite_animation::systems::update_animations;
use sprite_animation::systems::update_spritesheets;
use sprite_animation::systems::SpriteOutput;

#[test]
fn empty_frame_list_is_invalid_clip() {
    let mut builder = AnimatorBuilder::new(1, 100, RepeatMode::Loop);
    let result = builder.register_animation(7, vec![]);
    assert_eq!(result, Err(AnimationError::InvalidClip));
    // The failed registration left nothing behind.
    let animator = builder.build();
    assert_eq!(animator.current_frame_of(&7), None);
}

#[test]
fn build_initializes_stopped_at_frame_zero() {
    let mut builder = AnimatorBuilder::new(1, 100, RepeatMode::Loop);
    builder.register_animation(7, vec![Frame::from(0), Frame::from(1)]).unwrap();
    let animator = builder.build();
    assert_eq!(animator.current_frame_of(&7), Some(0));
    assert_eq!(animator.is_playing(&7), Some(false));
    assert_eq!(animator.elapsed_ms_of(&7), Some(0));
    assert_eq!(animator.playing, false);
}

#[test]
fn same_key_last_registration_wins() {
    let mut builder = AnimatorBuilder::new(1, 100, RepeatMode::Loop);
    builder.register_animation(7, vec![Frame::from(0)]).unwrap();
    builder.set_spritesheet(2);
    builder.register_animation(7, vec![Frame::flip_x(5), Frame::flip_x(6)]).unwrap();
    let mut animator = builder.build();
    animator.play_animation(&7);
    let winner = animator.get_highest_priority_animation().unwrap();
    assert_eq!(winner.spritesheet_id(), 2);
    let frame = winner.current_frame_data();
    assert_eq!(frame.index, 5);
    assert_eq!(frame.flip_x, true);
}

#[test]
fn setters_apply_only_to_later_registrations() {
    let mut builder = AnimatorBuilder::new(1, 100, RepeatMode::Loop);
    builder.register_animation(1, vec![Frame::from(0), Frame::from(1)]).unwrap();
    builder.set_duration(200).set_spritesheet(9);
    builder.register_animation(2, vec![Frame::from(4), Frame::from(5)]).unwrap();
    let mut animator = builder.build();

    // The first clip keeps its 100 ms per-frame duration: 100 ms crosses
    // one boundary.
    animator.play_animation(&1);
    update_animations(&mut animator, 100);
    assert_eq!(animator.current_frame_of(&1), Some(1));
    animator.stop_animation_by_key(&1);

    // The second clip needs 200 ms per boundary: 100 ms is not enough.
    animator.play_animation(&2);
    update_animations(&mut animator, 100);
    assert_eq!(animator.current_frame_of(&2), Some(0));
    assert_eq!(animator.elapsed_ms_of(&2), Some(100));
}

#[test]
fn builder_defaults_priority_zero_and_repeat_default_is_once() {
    assert_eq!(RepeatMode::default(), RepeatMode::Once);

    // Both clips registered without touching priority share priority 0, so
    // playing one stops the other.
    let mut builder = AnimatorBuilder::new(1, 100, RepeatMode::Loop);
    builder.register_animation(1, vec![Frame::from(0)]).unwrap();
    builder.register_animation(2, vec![Frame::from(1)]).unwrap();
    let mut animator = builder.build();
    animator.play_animation(&1);
    animator.play_animation(&2);
    assert_eq!(animator.is_playing(&1), Some(false));
    assert_eq!(animator.is_playing(&2), Some(true));
}

#[test]
fn default_animator_is_empty_and_inert() {
    let mut animator = Animator::default();
    assert_eq!(animator.current_frame_of(&0), None);
    assert_eq!(animator.take_changed(), false);
    update_animations(&mut animator, 1000);
    let before = SpriteOutput { frame_index: 3, flip_x: true, flip_y: false, spritesheet: 8 };
    let mut output = before;
    update_spritesheets(&animator, &mut output);
    assert_eq!(output, before);
}

#[test]
fn default_frame_is_unflipped_cell_zero() {
    let frame = Frame::default();
    assert_eq!((frame.index, frame.flip_x, frame.flip_y), (0, false, false));
}

#[test]
fn frame_constructors() {
    let plain = Frame::from(3usize);
    assert_eq!((plain.index, plain.flip_x, plain.flip_y), (3, false, false));
    let fx = Frame::flip_x(4);
    assert_eq!((fx.index, fx.flip_x, fx.flip_y), (4, true, false));
    let fy = Frame::flip_y(5);
    assert_eq!((fy.index, fy.flip_x, fy.flip_y), (5, false, true));
    let full = Frame::new(6, true, true);
    assert_eq!((full.index, full.flip_x, full.flip_y), (6, true, true));
}
