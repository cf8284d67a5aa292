//! The two per-tick passes: the advance pass, which folds the tick's elapsed
//! time into the winning animation's timer and moves its frame forward, and
//! the projection pass, which writes the winner's frame data to the
//! renderable sprite output. The host calls [`update_animations`] once per
//! tick for every animator, then [`update_spritesheets`] (for animators
//! whose state changed) strictly afterwards.

use crate::components::Animator;
use crate::components::AnimatorModel;
use crate::components::lemma_winner_props;
use crate::components::spec_advance;
use crate::components::spec_winner;
use crate::SpritesheetId;
use vstd::prelude::*;

verus! {

/// The renderable state the projection pass writes: the winning animation's
/// frame data plus the spritesheet it draws from. The host hands this to
/// its renderer.
#[derive(Clone, Copy, PartialEq, Eq, Structural, Debug)]
pub struct SpriteOutput {
    pub frame_index: usize,
    pub flip_x: bool,
    pub flip_y: bool,
    pub spritesheet: SpritesheetId,
}

/// An animator after one advance pass: the winning animation (if any) is
/// advanced by the tick's delta, and the change flag is raised when its
/// frame or playing state moved. Nothing else is touched; in particular,
/// playing animations that are not the winner keep their timers as they
/// are.
pub open spec fn spec_update_animations(am: AnimatorModel, delta_ms: u64) -> AnimatorModel {
    match spec_winner(am.anims) {
        None => am,
        Some(i) => {
            let a = am.anims[i].1;
            let a2 = spec_advance(a, delta_ms);
            AnimatorModel {
                anims: am.anims.update(i, (am.anims[i].0, a2)),
                changed: am.changed || a2.current_frame != a.current_frame || a2.playing
                    != a.playing,
                ..am
            }
        },
    }
}

/// The advance pass for one animator: accumulates the tick's elapsed
/// milliseconds into the winning animation's timer and applies the
/// frame-advance and repeat-mode transitions of [`spec_advance`]. Runs once
/// per tick, strictly before that animator's projection pass.
pub fn update_animations(animator: &mut Animator, delta_ms: u64)
    requires
        old(animator).wf(),
    ensures
        final(animator).wf(),
        final(animator)@ == spec_update_animations(old(animator)@, delta_ms),
{
    match animator.winner_index() {
        None => {
        },
        Some(i) => {
            proof {
                lemma_winner_props(animator@.anims);
            }
            animator.advance_at(i, delta_ms);
        },
    }
}

/// What one projection writes: the winner's current frame data and
/// spritesheet reference; with no winner the renderable output is left
/// untouched.
pub open spec fn spec_project(am: AnimatorModel, out: SpriteOutput) -> SpriteOutput {
    match spec_winner(am.anims) {
        None => out,
        Some(i) => {
            let a = am.anims[i].1;
            let f = a.frames[a.current_frame as int];
            SpriteOutput {
                frame_index: f.index,
                flip_x: f.flip_x,
                flip_y: f.flip_y,
                spritesheet: a.spritesheet,
            }
        },
    }
}

/// The projection pass for one animator: writes the winning animation's
/// frame index, flip flags and spritesheet reference to the renderable
/// output (rebinding the spritesheet only when it differs). With nothing
/// playing the output is left as it was. The frame lookup cannot go out of
/// range: the advance pass keeps every `current_frame` inside its clip.
pub fn update_spritesheets(animator: &Animator, output: &mut SpriteOutput)
    requires
        animator.wf(),
    ensures
        *final(output) == spec_project(animator@, *old(output)),
{
    proof {
        lemma_winner_props(animator@.anims);
    }
    match animator.get_highest_priority_animation() {
        Some(animation) => {
            let sheet = animation.spritesheet_id();
            if sheet != output.spritesheet {
                output.spritesheet = sheet;
            }
            let frame = animation.current_frame_data();
            output.frame_index = frame.index;
            output.flip_x = frame.flip_x;
            output.flip_y = frame.flip_y;
        },
        None => {
        },
    }
}

} // verus!
