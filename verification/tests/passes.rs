use sprite_animation::components::Animator;
use sprite_animation::components::AnimatorBuilder;
use sprite_animation::components::Frame;
use sprite_animation::components::RepeatMode;
use sprite_animation::systems::update_animations;
use sprite_animation::systems::update_spritesheets;
use sprite_animation::systems::SpriteOutput;

fn four_frame_animator(mode: RepeatMode) -> Animator {
    let mut builder = AnimatorBuilder::new(1, 200, mode);
    builder
        .register_animation(1, vec![Frame::from(0), Frame::from(1), Frame::from(2), Frame::from(3)])
        .unwrap();
    builder.build()
}

fn blank_output() -> SpriteOutput {
    SpriteOutput { frame_index: 77, flip_x: false, flip_y: false, spritesheet: 0 }
}

#[test]
fn loop_frame_is_k_mod_n() {
    // 4 frames, 200 ms each, looping: after k whole durations the frame is
    // k mod 4, however the time is sliced into ticks.
    let mut animator = four_frame_animator(RepeatMode::Loop);
    animator.play_animation(&1);
    for k in 1u64..=9 {
        update_animations(&mut animator, 200);
        assert_eq!(animator.current_frame_of(&1), Some((k % 4) as usize));
        assert_eq!(animator.is_playing(&1), Some(true));
        assert_eq!(animator.elapsed_ms_of(&1), Some(0));
    }

    // The same nine durations delivered as one large tick.
    let mut animator = four_frame_animator(RepeatMode::Loop);
    animator.play_animation(&1);
    update_animations(&mut animator, 9 * 200);
    assert_eq!(animator.current_frame_of(&1), Some(1));
}

#[test]
fn walk_scenario_350ms_keeps_remainder() {
    // "walk" = 4 frames, 200 ms, Loop; one accumulated 350 ms delta crosses
    // one boundary and keeps the 150 ms overshoot in the timer.
    let mut animator = four_frame_animator(RepeatMode::Loop);
    animator.play_animation(&1);
    update_animations(&mut animator, 350);
    assert_eq!(animator.current_frame_of(&1), Some(1));
    assert_eq!(animator.elapsed_ms_of(&1), Some(150));

    // 50 ms more completes the second duration.
    update_animations(&mut animator, 50);
    assert_eq!(animator.current_frame_of(&1), Some(2));
    assert_eq!(animator.elapsed_ms_of(&1), Some(0));
}

#[test]
fn once_stops_at_frame_zero_after_full_run() {
    let mut animator = four_frame_animator(RepeatMode::Once);
    animator.play_animation(&1);
    update_animations(&mut animator, 4 * 200);
    assert_eq!(animator.is_playing(&1), Some(false));
    assert_eq!(animator.current_frame_of(&1), Some(0));

    // Additional elapsed time changes nothing.
    update_animations(&mut animator, 10_000);
    assert_eq!(animator.is_playing(&1), Some(false));
    assert_eq!(animator.current_frame_of(&1), Some(0));
}

#[test]
fn pause_freezes_on_last_frame() {
    let mut animator = four_frame_animator(RepeatMode::Pause);
    animator.play_animation(&1);
    update_animations(&mut animator, 4 * 200);
    assert_eq!(animator.is_playing(&1), Some(false));
    assert_eq!(animator.current_frame_of(&1), Some(3));

    // Additional elapsed time does not move the frozen frame.
    update_animations(&mut animator, 10_000);
    assert_eq!(animator.current_frame_of(&1), Some(3));
}

#[test]
fn single_frame_clip_edge_cases() {
    // A one-frame Loop clip never leaves frame 0 and keeps playing.
    let mut builder = AnimatorBuilder::new(1, 100, RepeatMode::Loop);
    builder.register_animation(1, vec![Frame::from(5)]).unwrap();
    let mut animator = builder.build();
    animator.play_animation(&1);
    update_animations(&mut animator, 1000);
    assert_eq!(animator.current_frame_of(&1), Some(0));
    assert_eq!(animator.is_playing(&1), Some(true));

    // A one-frame Once clip stops as soon as the first duration elapses.
    let mut builder = AnimatorBuilder::new(1, 100, RepeatMode::Once);
    builder.register_animation(1, vec![Frame::from(5)]).unwrap();
    let mut animator = builder.build();
    animator.play_animation(&1);
    update_animations(&mut animator, 100);
    assert_eq!(animator.current_frame_of(&1), Some(0));
    assert_eq!(animator.is_playing(&1), Some(false));

    // A one-frame Pause clip freezes on its only frame.
    let mut builder = AnimatorBuilder::new(1, 100, RepeatMode::Pause);
    builder.register_animation(1, vec![Frame::from(5)]).unwrap();
    let mut animator = builder.build();
    animator.play_animation(&1);
    update_animations(&mut animator, 100);
    assert_eq!(animator.current_frame_of(&1), Some(0));
    assert_eq!(animator.is_playing(&1), Some(false));
}

#[test]
fn zero_duration_clip_advances_one_frame_per_tick() {
    let mut builder = AnimatorBuilder::new(1, 0, RepeatMode::Loop);
    builder
        .register_animation(1, vec![Frame::from(0), Frame::from(1), Frame::from(2)])
        .unwrap();
    let mut animator = builder.build();
    animator.play_animation(&1);
    update_animations(&mut animator, 5);
    assert_eq!(animator.current_frame_of(&1), Some(1));
    update_animations(&mut animator, 99_999);
    assert_eq!(animator.current_frame_of(&1), Some(2));
    assert_eq!(animator.elapsed_ms_of(&1), Some(0));
}

#[test]
fn projection_selects_highest_priority() {
    // A (priority 1) and B (priority 5), both playing: B's frame data wins
    // regardless of registration order.
    let mut builder = AnimatorBuilder::new(1, 100, RepeatMode::Loop);
    builder.set_priority(1);
    builder.register_animation(1, vec![Frame::from(10)]).unwrap();
    builder.set_priority(5);
    builder.register_animation(2, vec![Frame::flip_y(20)]).unwrap();
    let mut animator = builder.build();
    animator.restart_animation(&1);
    animator.restart_animation(&2);
    let mut output = blank_output();
    update_spritesheets(&animator, &mut output);
    assert_eq!(output.frame_index, 20);
    assert_eq!(output.flip_y, true);

    // Registration order reversed: still the priority-5 animation.
    let mut builder = AnimatorBuilder::new(1, 100, RepeatMode::Loop);
    builder.set_priority(5);
    builder.register_animation(2, vec![Frame::flip_y(20)]).unwrap();
    builder.set_priority(1);
    builder.register_animation(1, vec![Frame::from(10)]).unwrap();
    let mut animator = builder.build();
    animator.restart_animation(&1);
    animator.restart_animation(&2);
    let mut output = blank_output();
    update_spritesheets(&animator, &mut output);
    assert_eq!(output.frame_index, 20);
}

#[test]
fn priority_tie_goes_to_earliest_registered() {
    let mut builder = AnimatorBuilder::new(1, 100, RepeatMode::Loop);
    builder.register_animation(1, vec![Frame::from(10)]).unwrap();
    builder.register_animation(2, vec![Frame::from(20)]).unwrap();
    let mut animator = builder.build();
    // restart does not stop same-priority animations, so both play.
    animator.restart_animation(&1);
    animator.restart_animation(&2);
    let mut output = blank_output();
    update_spritesheets(&animator, &mut output);
    assert_eq!(output.frame_index, 10);
}

#[test]
fn stop_falls_back_to_lower_priority() {
    // "idle" (priority 0) and "hit" (priority 10): play both, stop "hit",
    // and projection falls back to "idle"'s current frame.
    let mut builder = AnimatorBuilder::new(1, 100, RepeatMode::Loop);
    builder.set_priority(0);
    builder.register_animation(1, vec![Frame::from(10), Frame::from(11)]).unwrap();
    builder.set_priority(10);
    builder.register_animation(2, vec![Frame::from(20), Frame::from(21)]).unwrap();
    let mut animator = builder.build();

    animator.play_animation(&1);
    animator.play_animation(&2);
    let mut output = blank_output();
    update_spritesheets(&animator, &mut output);
    assert_eq!(output.frame_index, 20);

    animator.stop_animation_by_key(&2);
    update_spritesheets(&animator, &mut output);
    assert_eq!(output.frame_index, 10);
}

#[test]
fn projection_with_nothing_playing_leaves_output_alone() {
    let animator = four_frame_animator(RepeatMode::Loop);
    let mut output = blank_output();
    update_spritesheets(&animator, &mut output);
    assert_eq!(output, blank_output());
}

#[test]
fn projection_rebinds_spritesheet_of_winner() {
    let mut builder = AnimatorBuilder::new(4, 100, RepeatMode::Loop);
    builder.register_animation(1, vec![Frame::from(0)]).unwrap();
    builder.set_spritesheet(9);
    builder.set_priority(2);
    builder.register_animation(2, vec![Frame::from(1)]).unwrap();
    let mut animator = builder.build();

    animator.play_animation(&1);
    let mut output = blank_output();
    update_spritesheets(&animator, &mut output);
    assert_eq!(output.spritesheet, 4);

    animator.play_animation(&2);
    update_spritesheets(&animator, &mut output);
    assert_eq!(output.spritesheet, 9);
    assert_eq!(output.frame_index, 1);
}

#[test]
fn only_the_winner_advances() {
    // The advance pass moves only the highest-priority playing animation;
    // a lower-priority playing animation keeps its frame and timer.
    let mut builder = AnimatorBuilder::new(1, 100, RepeatMode::Loop);
    builder.set_priority(0);
    builder.register_animation(1, vec![Frame::from(0), Frame::from(1)]).unwrap();
    builder.set_priority(5);
    builder.register_animation(2, vec![Frame::from(2), Frame::from(3)]).unwrap();
    let mut animator = builder.build();

    animator.play_animation(&1);
    animator.play_animation(&2);
    update_animations(&mut animator, 150);
    assert_eq!(animator.current_frame_of(&2), Some(1));
    assert_eq!(animator.elapsed_ms_of(&2), Some(50));
    assert_eq!(animator.current_frame_of(&1), Some(0));
    assert_eq!(animator.elapsed_ms_of(&1), Some(0));
}
