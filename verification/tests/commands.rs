use sprite_animation::components::Animator;
use sprite_animation::components::AnimatorBuilder;
use sprite_animation::components::Frame;
use sprite_animation::components::RepeatMode;
use sprite_animation::systems::update_animations;

fn walk_animator() -> Animator {
    // "walk": 4 frames, 200 ms per frame, looping.
    let mut builder = AnimatorBuilder::new(1, 200, RepeatMode::Loop);
    builder
        .register_animation(1, vec![Frame::from(0), Frame::from(1), Frame::from(2), Frame::from(3)])
        .unwrap();
    builder.build()
}

#[test]
fn play_resumes_from_stopped_frame() {
    let mut animator = walk_animator();
    animator.play_animation(&1);
    // Three boundaries: land on frame 3.
    update_animations(&mut animator, 600);
    assert_eq!(animator.current_frame_of(&1), Some(3));
    animator.stop_animation_by_key(&1);
    assert_eq!(animator.is_playing(&1), Some(false));
    assert_eq!(animator.current_frame_of(&1), Some(3));

    // Resuming picks up at frame 3, not frame 0.
    animator.play_animation(&1);
    assert_eq!(animator.is_playing(&1), Some(true));
    assert_eq!(animator.current_frame_of(&1), Some(3));
}

#[test]
fn restart_rewinds_to_frame_zero() {
    let mut animator = walk_animator();
    animator.play_animation(&1);
    update_animations(&mut animator, 650);
    assert_eq!(animator.current_frame_of(&1), Some(3));
    assert_eq!(animator.elapsed_ms_of(&1), Some(50));

    animator.restart_animation(&1);
    assert_eq!(animator.is_playing(&1), Some(true));
    assert_eq!(animator.current_frame_of(&1), Some(0));
    assert_eq!(animator.elapsed_ms_of(&1), Some(0));
}

#[test]
fn unknown_key_commands_are_no_ops() {
    let mut animator = walk_animator();
    animator.play_animation(&1);
    update_animations(&mut animator, 200);
    let frame_before = animator.current_frame_of(&1);
    let playing_before = animator.is_playing(&1);

    animator.play_animation(&99);
    animator.restart_animation(&99);
    animator.stop_animation_by_key(&99);

    assert_eq!(animator.current_frame_of(&1), frame_before);
    assert_eq!(animator.is_playing(&1), playing_before);
    assert_eq!(animator.current_frame_of(&99), None);
    assert_eq!(animator.is_playing(&99), None);
    assert_eq!(animator.elapsed_ms_of(&99), None);
}

#[test]
fn play_stops_other_animations_of_same_priority() {
    let mut builder = AnimatorBuilder::new(1, 100, RepeatMode::Loop);
    builder.set_priority(3);
    builder.register_animation(1, vec![Frame::from(0)]).unwrap();
    builder.register_animation(2, vec![Frame::from(1)]).unwrap();
    builder.set_priority(8);
    builder.register_animation(3, vec![Frame::from(2)]).unwrap();
    let mut animator = builder.build();

    animator.play_animation(&1);
    animator.play_animation(&3);
    assert_eq!(animator.is_playing(&1), Some(true));
    assert_eq!(animator.is_playing(&3), Some(true));

    // Key 2 shares priority 3 with key 1: playing it stops key 1 but not
    // the priority-8 animation.
    animator.play_animation(&2);
    assert_eq!(animator.is_playing(&1), Some(false));
    assert_eq!(animator.is_playing(&2), Some(true));
    assert_eq!(animator.is_playing(&3), Some(true));
}

#[test]
fn stop_by_priority_stops_every_match() {
    let mut builder = AnimatorBuilder::new(1, 100, RepeatMode::Loop);
    builder.set_priority(3);
    builder.register_animation(1, vec![Frame::from(0)]).unwrap();
    builder.register_animation(2, vec![Frame::from(1)]).unwrap();
    builder.set_priority(8);
    builder.register_animation(3, vec![Frame::from(2)]).unwrap();
    let mut animator = builder.build();

    animator.restart_animation(&1);
    animator.restart_animation(&2);
    animator.restart_animation(&3);

    animator.stop_animation_by_priority(3);
    assert_eq!(animator.is_playing(&1), Some(false));
    assert_eq!(animator.is_playing(&2), Some(false));
    assert_eq!(animator.is_playing(&3), Some(true));
}

#[test]
fn take_changed_reports_and_clears() {
    let mut animator = walk_animator();
    assert_eq!(animator.take_changed(), false);

    animator.play_animation(&1);
    assert_eq!(animator.take_changed(), true);
    assert_eq!(animator.take_changed(), false);

    // A tick that crosses a frame boundary raises the flag again.
    update_animations(&mut animator, 200);
    assert_eq!(animator.take_changed(), true);

    // A tick that only accumulates time does not.
    update_animations(&mut animator, 50);
    assert_eq!(animator.take_changed(), false);

    // An unknown key raises nothing.
    animator.play_animation(&99);
    assert_eq!(animator.take_changed(), false);
}
