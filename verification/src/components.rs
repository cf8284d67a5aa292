//! The animation data model: clips, frames, repeat modes, the per-entity
//! [`Animator`] with its command API, and the [`AnimatorBuilder`] that
//! registers clips.

use crate::AnimationKey;
use crate::SpritesheetId;
use vstd::arithmetic::div_mod::lemma_add_mod_noop_right;
use vstd::arithmetic::div_mod::lemma_div_pos_is_pos;
use vstd::arithmetic::div_mod::lemma_mod_decreases;
use vstd::arithmetic::div_mod::lemma_mod_division_less_than_divisor;
use vstd::arithmetic::div_mod::lemma_mod_sub_multiples_vanish;
use vstd::arithmetic::div_mod::lemma_small_div_converse;
use vstd::arithmetic::div_mod::lemma_small_mod;
use vstd::prelude::*;

verus! {

/// Policy for what happens when playback advances past the last frame.
#[derive(Clone, Copy, PartialEq, Eq, Structural, Debug)]
pub enum RepeatMode {
    /// Stop playing and reset to frame 0 after the last frame.
    Once,
    /// Wrap back to frame 0 and keep playing.
    Loop,
    /// Freeze on the last frame and stop playing.
    Pause,
}

impl Default for RepeatMode {
    /// The default repeat mode is `Once`.
    fn default() -> (r: Self)
        ensures
            r == RepeatMode::Once,
    {
        RepeatMode::Once
    }
}

/// One renderable cell of a spritesheet: a cell index plus flip flags.
#[derive(Clone, Copy, PartialEq, Eq, Structural, Debug)]
pub struct Frame {
    pub index: usize,
    pub flip_x: bool,
    pub flip_y: bool,
}

impl Frame {
    /// A frame with both flip flags chosen by the caller.
    pub fn new(index: usize, flip_x: bool, flip_y: bool) -> (r: Self)
        ensures
            r == (Frame { index, flip_x, flip_y }),
    {
        Frame { index, flip_x, flip_y }
    }

    /// A frame mirrored horizontally.
    pub fn flip_x(index: usize) -> (r: Self)
        ensures
            r == (Frame { index, flip_x: true, flip_y: false }),
    {
        Frame { index, flip_x: true, flip_y: false }
    }

    /// A frame mirrored vertically.
    pub fn flip_y(index: usize) -> (r: Self)
        ensures
            r == (Frame { index, flip_x: false, flip_y: true }),
    {
        Frame { index, flip_x: false, flip_y: true }
    }
}

impl Default for Frame {
    /// An unflipped frame at cell index 0.
    fn default() -> (r: Self)
        ensures
            r == (Frame { index: 0, flip_x: false, flip_y: false }),
    {
        Frame { index: 0, flip_x: false, flip_y: false }
    }
}

impl From<usize> for Frame {
    /// A plain, unflipped frame at the given cell index.
    fn from(value: usize) -> (r: Self)
        ensures
            r == (Frame { index: value, flip_x: false, flip_y: false }),
    {
        Frame { index: value, flip_x: false, flip_y: false }
    }
}

impl vstd::std_specs::convert::FromSpecImpl<usize> for Frame {
    open spec fn obeys_from_spec() -> bool {
        true
    }

    open spec fn from_spec(value: usize) -> Frame {
        Frame { index: value, flip_x: false, flip_y: false }
    }
}

/// The mathematical value of one animation: the immutable clip definition
/// (frames, spritesheet, per-frame duration, priority, repeat mode) together
/// with its runtime state (elapsed timer, current frame, playing flag).
#[verifier::ext_equal]
pub ghost struct AnimationModel {
    pub frames: Seq<Frame>,
    pub spritesheet: SpritesheetId,
    pub duration_ms: u64,
    pub priority: usize,
    pub repeat_mode: RepeatMode,
    pub elapsed_ms: u64,
    pub current_frame: usize,
    pub playing: bool,
}

impl AnimationModel {
    /// Well-formedness: the clip is non-empty, the current frame is in
    /// range, and the timer accumulator has already been folded down below
    /// the per-frame duration (a zero duration pins the accumulator at 0).
    pub open spec fn wf(self) -> bool {
        &&& 1 <= self.frames.len() <= usize::MAX
        &&& (self.current_frame as int) < self.frames.len()
        &&& (self.duration_ms > 0 ==> self.elapsed_ms < self.duration_ms)
        &&& (self.duration_ms == 0 ==> self.elapsed_ms == 0)
    }
}

/// One animation clip plus its runtime playback state.
#[derive(Debug)]
pub struct Animation {
    pub(crate) frames: Vec<Frame>,
    pub(crate) spritesheet: SpritesheetId,
    pub(crate) duration_ms: u64,
    pub(crate) priority: usize,
    pub(crate) repeat_mode: RepeatMode,
    pub(crate) elapsed_ms: u64,
    pub(crate) current_frame: usize,
    pub(crate) playing: bool,
}

impl View for Animation {
    type V = AnimationModel;

    closed spec fn view(&self) -> AnimationModel {
        AnimationModel {
            frames: self.frames@,
            spritesheet: self.spritesheet,
            duration_ms: self.duration_ms,
            priority: self.priority,
            repeat_mode: self.repeat_mode,
            elapsed_ms: self.elapsed_ms,
            current_frame: self.current_frame,
            playing: self.playing,
        }
    }
}

/// The mathematical value of an [`Animator`]: its registered animations in
/// registration order, plus the change-detection flag.
#[verifier::ext_equal]
pub ghost struct AnimatorModel {
    pub playing: bool,
    pub changed: bool,
    pub anims: Seq<(AnimationKey, AnimationModel)>,
}

/// Keys are pairwise distinct and every animation is well-formed.
pub open spec fn anims_wf(s: Seq<(AnimationKey, AnimationModel)>) -> bool {
    &&& forall|i: int, j: int| 0 <= i < j < s.len() ==> (#[trigger] s[i]).0 != (#[trigger] s[j]).0
    &&& forall|i: int| 0 <= i < s.len() ==> (#[trigger] s[i]).1.wf()
}

/// Some registered animation carries the given key.
pub open spec fn has_key(s: Seq<(AnimationKey, AnimationModel)>, key: AnimationKey) -> bool {
    exists|i: int| 0 <= i < s.len() && (#[trigger] s[i]).0 == key
}

/// The position of the animation with the given key (meaningful only when
/// `has_key` holds; with distinct keys it is unique).
pub open spec fn key_index(s: Seq<(AnimationKey, AnimationModel)>, key: AnimationKey) -> int {
    choose|i: int| 0 <= i < s.len() && (#[trigger] s[i]).0 == key
}

/// With distinct keys, any position holding `key` is the `key_index`.
pub proof fn lemma_key_index(s: Seq<(AnimationKey, AnimationModel)>, key: AnimationKey, i: int)
    requires
        anims_wf(s),
        0 <= i < s.len(),
        s[i].0 == key,
    ensures
        has_key(s, key),
        key_index(s, key) == i,
{
    assert(has_key(s, key));
    let c = key_index(s, key);
    if c != i {
        if c < i {
            assert(s[c].0 != s[i].0);
        } else {
            assert(s[i].0 != s[c].0);
        }
    }
}

/// Commands only toggle an animation's playing flag, or reset its frame and
/// timer to 0; none of that can break well-formedness.
pub proof fn lemma_anims_wf_same_shape(
    s1: Seq<(AnimationKey, AnimationModel)>,
    s2: Seq<(AnimationKey, AnimationModel)>,
)
    requires
        anims_wf(s1),
        s2.len() == s1.len(),
        forall|j: int| 0 <= j < s1.len() ==> (#[trigger] s2[j]).0 == s1[j].0,
        forall|j: int|
            0 <= j < s1.len() ==> {
                let a1 = s1[j].1;
                let a2 = (#[trigger] s2[j]).1;
                &&& a2.frames == a1.frames
                &&& a2.duration_ms == a1.duration_ms
                &&& (a2.current_frame == a1.current_frame || a2.current_frame == 0)
                &&& (a2.elapsed_ms == a1.elapsed_ms || a2.elapsed_ms == 0)
            },
    ensures
        anims_wf(s2),
{
    assert forall|j: int| 0 <= j < s2.len() implies (#[trigger] s2[j]).1.wf() by {
        assert(s1[j].1.wf());
    }
}

/// Some registered animation has the given priority.
pub open spec fn has_priority(s: Seq<(AnimationKey, AnimationModel)>, priority: usize) -> bool {
    exists|i: int| 0 <= i < s.len() && (#[trigger] s[i]).1.priority == priority
}

/// The animations after `stop_animation_by_priority(priority)`: every
/// animation whose priority equals the given one stops playing; everything
/// else is untouched.
pub open spec fn spec_stop_priority(
    s: Seq<(AnimationKey, AnimationModel)>,
    priority: usize,
) -> Seq<(AnimationKey, AnimationModel)> {
    s.map_values(
        |kv: (AnimationKey, AnimationModel)|
            (
                kv.0,
                if kv.1.priority == priority {
                    AnimationModel { playing: false, ..kv.1 }
                } else {
                    kv.1
                },
            ),
    )
}

/// The animations after `stop_animation_by_key(key)`: the named animation
/// stops playing (keeping its frame position for a later resume); an unknown
/// key changes nothing.
pub open spec fn spec_stop_key(
    s: Seq<(AnimationKey, AnimationModel)>,
    key: AnimationKey,
) -> Seq<(AnimationKey, AnimationModel)> {
    s.map_values(
        |kv: (AnimationKey, AnimationModel)|
            (
                kv.0,
                if kv.0 == key {
                    AnimationModel { playing: false, ..kv.1 }
                } else {
                    kv.1
                },
            ),
    )
}

/// The animations after `play(key)`: the named animation starts (or keeps)
/// playing from its current frame, every other animation sharing its
/// priority stops, and an unknown key changes nothing.
pub open spec fn spec_play(
    s: Seq<(AnimationKey, AnimationModel)>,
    key: AnimationKey,
) -> Seq<(AnimationKey, AnimationModel)> {
    if !has_key(s, key) {
        s
    } else {
        let p = s[key_index(s, key)].1.priority;
        s.map_values(
            |kv: (AnimationKey, AnimationModel)|
                (
                    kv.0,
                    if kv.0 == key {
                        AnimationModel { playing: true, ..kv.1 }
                    } else if kv.1.priority == p {
                        AnimationModel { playing: false, ..kv.1 }
                    } else {
                        kv.1
                    },
                ),
        )
    }
}

/// The animations after `restart(key)`: the named animation starts playing
/// from frame 0 with a fresh timer; an unknown key changes nothing.
pub open spec fn spec_restart(
    s: Seq<(AnimationKey, AnimationModel)>,
    key: AnimationKey,
) -> Seq<(AnimationKey, AnimationModel)> {
    s.map_values(
        |kv: (AnimationKey, AnimationModel)|
            (
                kv.0,
                if kv.0 == key {
                    AnimationModel { playing: true, current_frame: 0, elapsed_ms: 0, ..kv.1 }
                } else {
                    kv.1
                },
            ),
    )
}

/// The winner: the position of the playing animation with the strictly
/// highest priority, or `None` when nothing is playing. A tie in priority
/// goes to the earliest-registered animation.
pub open spec fn spec_winner(s: Seq<(AnimationKey, AnimationModel)>) -> Option<int>
    decreases s.len(),
{
    if s.len() == 0 {
        None
    } else {
        let last = s.len() - 1;
        match spec_winner(s.drop_last()) {
            None => if s[last].1.playing {
                Some(last)
            } else {
                None
            },
            Some(i) => if s[last].1.playing && s[last].1.priority > s[i].1.priority {
                Some(last)
            } else {
                Some(i)
            },
        }
    }
}

/// What the winner means: there is no winner exactly when nothing is
/// playing; otherwise the winner is playing, no playing animation outranks
/// it, and every earlier-registered playing animation ranks strictly below
/// it (so ties go to the earliest registration).
pub proof fn lemma_winner_props(s: Seq<(AnimationKey, AnimationModel)>)
    ensures
        match spec_winner(s) {
            None => forall|j: int| 0 <= j < s.len() ==> !(#[trigger] s[j]).1.playing,
            Some(i) => {
                &&& 0 <= i < s.len()
                &&& s[i].1.playing
                &&& forall|j: int|
                    0 <= j < s.len() && (#[trigger] s[j]).1.playing ==> s[j].1.priority
                        <= s[i].1.priority
                &&& forall|j: int|
                    0 <= j < i && (#[trigger] s[j]).1.playing ==> s[j].1.priority
                        < s[i].1.priority
            },
        },
    decreases s.len(),
{
    if s.len() > 0 {
        let pre = s.drop_last();
        lemma_winner_props(pre);
        assert(forall|j: int| 0 <= j < pre.len() ==> pre[j] == s[j]);
    }
}

/// The position of `key` in a registration list, if present.
fn find_key(v: &Vec<(AnimationKey, Animation)>, key: AnimationKey) -> (r: Option<usize>)
    ensures
        match r {
            Some(i) => i < v@.len() && v@[i as int].0 == key,
            None => forall|j: int| 0 <= j < v@.len() ==> (#[trigger] v@[j]).0 != key,
        },
{
    let n = v.len();
    let mut i: usize = 0;
    while i < n
        invariant
            i <= n,
            n == v.len(),
            forall|j: int| 0 <= j < i ==> (#[trigger] v@[j]).0 != key,
        decreases n - i,
    {
        if v[i].0 == key {
            return Some(i);
        }
        i += 1;
    }
    None
}

/// Per-entity animation state: the registered clips (in registration order,
/// with pairwise-distinct keys) and their runtime state. Mutated only by the
/// command API and by the advance pass.
#[derive(Debug)]
pub struct Animator {
    pub playing: bool,
    pub(crate) changed: bool,
    pub(crate) animations: Vec<(AnimationKey, Animation)>,
}

impl View for Animator {
    type V = AnimatorModel;

    closed spec fn view(&self) -> AnimatorModel {
        AnimatorModel {
            playing: self.playing,
            changed: self.changed,
            anims: self.animations@.map_values(|p: (AnimationKey, Animation)| (p.0, p.1@)),
        }
    }
}

impl Default for Animator {
    /// An animator with no animations registered.
    fn default() -> (r: Self)
        ensures
            r.wf(),
            r@ == (AnimatorModel { playing: false, changed: false, anims: Seq::empty() }),
    {
        Animator { playing: false, changed: false, animations: Vec::new() }
    }
}

impl Animator {
    /// The animator's structural invariant, established by
    /// [`AnimatorBuilder::build`] and preserved by every command and pass.
    pub open spec fn wf(&self) -> bool {
        anims_wf(self@.anims)
    }

    /// The position of `key`'s animation in registration order, if present.
    fn find_index(&self, key: AnimationKey) -> (r: Option<usize>)
        ensures
            match r {
                Some(i) => i < self@.anims.len() && self@.anims[i as int].0 == key,
                None => !has_key(self@.anims, key),
            },
    {
        let r = find_key(&self.animations, key);
        proof {
            if r is None {
                assert(forall|j: int| 0 <= j < self@.anims.len() ==> (#[trigger] self@.anims[j]).0
                    == self.animations@[j].0);
            }
        }
        r
    }

    /// The position of the winning animation, if one is playing.
    pub(crate) fn winner_index(&self) -> (r: Option<usize>)
        ensures
            match r {
                Some(i) => i < self@.anims.len() && spec_winner(self@.anims) == Some(i as int),
                None => spec_winner(self@.anims) is None,
            },
    {
        let ghost s = self@.anims;
        let n = self.animations.len();
        let mut best: Option<usize> = None;
        let mut i: usize = 0;
        while i < n
            invariant
                i <= n,
                n == self.animations.len(),
                s == self@.anims,
                s.len() == n,
                match best {
                    Some(b) => b < i && spec_winner(s.take(i as int)) == Some(b as int),
                    None => spec_winner(s.take(i as int)) is None,
                },
            decreases n - i,
        {
            proof {
                assert(s.take(i as int + 1).drop_last() =~= s.take(i as int));
                assert(s.take(i as int + 1).last() == s[i as int]);
            }
            if self.animations[i].1.playing {
                match best {
                    None => {
                        best = Some(i);
                    },
                    Some(b) => {
                        if self.animations[i].1.priority > self.animations[b].1.priority {
                            best = Some(i);
                        }
                    },
                }
            }
            i += 1;
        }
        proof {
            assert(s.take(n as int) =~= s);
        }
        best
    }

    /// Among the currently playing animations, the one with the strictly
    /// highest priority; a tie goes to the earliest-registered one. `None`
    /// when nothing is playing, so that the projection pass leaves the
    /// renderable output alone.
    pub fn get_highest_priority_animation(&self) -> (r: Option<&Animation>)
        ensures
            match spec_winner(self@.anims) {
                Some(i) => r is Some && r->0@ == self@.anims[i].1,
                None => r is None,
            },
    {
        match self.winner_index() {
            Some(i) => Some(&self.animations[i].1),
            None => None,
        }
    }

    /// Stops the named animation, leaving its frame position intact so a
    /// later `play_animation` resumes where it left off. An unknown key is a
    /// no-op.
    pub fn stop_animation_by_key(&mut self, key: &AnimationKey)
        requires
            old(self).wf(),
        ensures
            final(self).wf(),
            final(self)@.anims =~= spec_stop_key(old(self)@.anims, *key),
            final(self)@.playing == old(self)@.playing,
            final(self)@.changed == (old(self)@.changed || has_key(old(self)@.anims, *key)),
    {
        let ghost s0 = self@.anims;
        match self.find_index(*key) {
            Some(i) => {
                self.animations[i].1.playing = false;
                self.changed = true;
                proof {
                    lemma_key_index(s0, *key, i as int);
                    assert forall|j: int| 0 <= j < s0.len() implies self@.anims[j]
                        == spec_stop_key(s0, *key)[j] by {
                        if j != i as int {
                            assert(s0[j].0 != *key);
                        }
                    }
                    assert(self@.anims =~= spec_stop_key(s0, *key));
                    lemma_anims_wf_same_shape(s0, self@.anims);
                }
            },
            None => {
                proof {
                    assert forall|j: int| 0 <= j < s0.len() implies self@.anims[j]
                        == spec_stop_key(s0, *key)[j] by {
                        assert(s0[j].0 != *key);
                    }
                    assert(self@.anims =~= spec_stop_key(s0, *key));
                }
            },
        }
    }

    /// Stops every animation whose priority equals the given value (several
    /// keys may share a priority; all of them stop).
    pub fn stop_animation_by_priority(&mut self, priority: usize)
        requires
            old(self).wf(),
        ensures
            final(self).wf(),
            final(self)@.anims =~= spec_stop_priority(old(self)@.anims, priority),
            final(self)@.playing == old(self)@.playing,
            final(self)@.changed == (old(self)@.changed || has_priority(
                old(self)@.anims,
                priority,
            )),
    {
        let ghost s0 = self@.anims;
        let ghost c0 = self@.changed;
        let n = self.animations.len();
        let mut i: usize = 0;
        while i < n
            invariant
                i <= n,
                n == self.animations.len(),
                s0.len() == n,
                self@.anims.len() == n,
                self.playing == old(self).playing,
                forall|j: int| i <= j < n ==> self@.anims[j] == s0[j],
                forall|j: int| 0 <= j < i ==> self@.anims[j] == spec_stop_priority(s0, priority)[j],
                self@.changed == (c0 || exists|j: int|
                    0 <= j < i && (#[trigger] s0[j]).1.priority == priority),
            decreases n - i,
        {
            if self.animations[i].1.priority == priority {
                self.animations[i].1.playing = false;
                self.changed = true;
                proof {
                    assert(s0[i as int].1.priority == priority);
                }
            }
            i += 1;
        }
        proof {
            assert(self@.anims =~= spec_stop_priority(s0, priority));
            lemma_anims_wf_same_shape(s0, self@.anims);
        }
    }

    /// Hands back whether any command or advance pass has touched playback
    /// state since the last call, clearing the flag. The host runs the
    /// projection pass only for animators that report a change — a
    /// performance gate, not a correctness one, so the flag may also be
    /// raised by a command that left the state as it already was.
    pub fn take_changed(&mut self) -> (r: bool)
        ensures
            r == old(self)@.changed,
            final(self)@ == (AnimatorModel { changed: false, ..old(self)@ }),
    {
        let r = self.changed;
        self.changed = false;
        r
    }

    /// The named animation's current frame position, if the key is
    /// registered.
    pub fn current_frame_of(&self, key: &AnimationKey) -> (r: Option<usize>)
        requires
            self.wf(),
        ensures
            match r {
                Some(c) => has_key(self@.anims, *key) && c == self@.anims[key_index(
                    self@.anims,
                    *key,
                )].1.current_frame,
                None => !has_key(self@.anims, *key),
            },
    {
        match self.find_index(*key) {
            Some(i) => {
                proof {
                    lemma_key_index(self@.anims, *key, i as int);
                }
                Some(self.animations[i].1.current_frame)
            },
            None => None,
        }
    }

    /// Whether the named animation is currently playing, if the key is
    /// registered.
    pub fn is_playing(&self, key: &AnimationKey) -> (r: Option<bool>)
        requires
            self.wf(),
        ensures
            match r {
                Some(p) => has_key(self@.anims, *key) && p == self@.anims[key_index(
                    self@.anims,
                    *key,
                )].1.playing,
                None => !has_key(self@.anims, *key),
            },
    {
        match self.find_index(*key) {
            Some(i) => {
                proof {
                    lemma_key_index(self@.anims, *key, i as int);
                }
                Some(self.animations[i].1.playing)
            },
            None => None,
        }
    }

    /// The named animation's timer accumulator, in milliseconds, if the key
    /// is registered.
    pub fn elapsed_ms_of(&self, key: &AnimationKey) -> (r: Option<u64>)
        requires
            self.wf(),
        ensures
            match r {
                Some(e) => has_key(self@.anims, *key) && e == self@.anims[key_index(
                    self@.anims,
                    *key,
                )].1.elapsed_ms,
                None => !has_key(self@.anims, *key),
            },
    {
        match self.find_index(*key) {
            Some(i) => {
                proof {
                    lemma_key_index(self@.anims, *key, i as int);
                }
                Some(self.animations[i].1.elapsed_ms)
            },
            None => None,
        }
    }

    /// Advances the (playing) animation at position `i` by one tick of
    /// `delta_ms`, raising the change flag when its frame or playing state
    /// moved. The advance pass applies this to the winning animation.
    pub(crate) fn advance_at(&mut self, i: usize, delta_ms: u64)
        requires
            old(self).wf(),
            i < old(self)@.anims.len(),
            old(self)@.anims[i as int].1.playing,
        ensures
            final(self).wf(),
            ({
                let a = old(self)@.anims[i as int].1;
                let a2 = spec_advance(a, delta_ms);
                final(self)@ == (AnimatorModel {
                    anims: old(self)@.anims.update(i as int, (old(self)@.anims[i as int].0, a2)),
                    changed: old(self)@.changed || a2.current_frame != a.current_frame
                        || a2.playing != a.playing,
                    ..old(self)@
                })
            }),
    {
        let ghost am0 = self@;
        let c_before = self.animations[i].1.current_frame;
        self.animations[i].1.advance(delta_ms);
        let c_after = self.animations[i].1.current_frame;
        let p_after = self.animations[i].1.playing;
        if c_after != c_before || !p_after {
            self.changed = true;
        }
        proof {
            let a = am0.anims[i as int].1;
            let a2 = spec_advance(a, delta_ms);
            assert forall|j: int| 0 <= j < am0.anims.len() implies self@.anims[j] == am0.anims
                .update(i as int, (am0.anims[i as int].0, a2))[j] by {}
            assert(self@.anims =~= am0.anims.update(i as int, (am0.anims[i as int].0, a2)));
            assert(self@ =~= AnimatorModel {
                anims: am0.anims.update(i as int, (am0.anims[i as int].0, a2)),
                changed: am0.changed || a2.current_frame != a.current_frame || a2.playing
                    != a.playing,
                ..am0
            });
            assert forall|j: int| 0 <= j < self@.anims.len() implies (#[trigger] self@.anims[j]).1
                .wf() by {
                if j != i as int {
                    assert(am0.anims[j].1.wf());
                }
            }
        }
    }

    /// Starts the named animation, resuming from whatever frame it last
    /// showed (`restart_animation` is the command that rewinds). Any other
    /// animation sharing the target's priority stops first. An unknown key
    /// is a no-op.
    pub fn play_animation(&mut self, key: &AnimationKey)
        requires
            old(self).wf(),
        ensures
            final(self).wf(),
            final(self)@.anims =~= spec_play(old(self)@.anims, *key),
            final(self)@.playing == old(self)@.playing,
            final(self)@.changed == (old(self)@.changed || has_key(old(self)@.anims, *key)),
    {
        let ghost s0 = self@.anims;
        match self.find_index(*key) {
            Some(i) => {
                proof {
                    lemma_key_index(s0, *key, i as int);
                }
                let p = self.animations[i].1.priority;
                proof {
                    assert(p == s0[i as int].1.priority);
                }
                self.stop_animation_by_priority(p);
                let ghost s1 = self@.anims;
                self.animations[i].1.playing = true;
                self.changed = true;
                proof {
                    assert(s1 =~= spec_stop_priority(s0, p));
                    assert(self@.anims.len() == s0.len());
                    assert forall|j: int| 0 <= j < s0.len() implies self@.anims[j]
                        == spec_play(s0, *key)[j] by {
                        assert(s1[j] == spec_stop_priority(s0, p)[j]);
                        if j == i as int {
                            assert(self@.anims[j].1 == AnimationModel { playing: true, ..s1[j].1 });
                        } else {
                            assert(self@.anims[j] == s1[j]);
                            assert(s0[j].0 != *key);
                        }
                    }
                    assert(self@.anims =~= spec_play(s0, *key));
                    lemma_anims_wf_same_shape(s0, self@.anims);
                }
            },
            None => {
                proof {
                    assert(self@.anims =~= spec_play(s0, *key));
                }
            },
        }
    }

    /// Starts the named animation from the beginning: frame 0 and a fresh,
    /// un-elapsed timer. An unknown key is a no-op.
    pub fn restart_animation(&mut self, key: &AnimationKey)
        requires
            old(self).wf(),
        ensures
            final(self).wf(),
            final(self)@.anims =~= spec_restart(old(self)@.anims, *key),
            final(self)@.playing == old(self)@.playing,
            final(self)@.changed == (old(self)@.changed || has_key(old(self)@.anims, *key)),
    {
        let ghost s0 = self@.anims;
        match self.find_index(*key) {
            Some(i) => {
                self.animations[i].1.playing = true;
                self.animations[i].1.current_frame = 0;
                self.animations[i].1.elapsed_ms = 0;
                self.changed = true;
                proof {
                    lemma_key_index(s0, *key, i as int);
                    assert forall|j: int| 0 <= j < s0.len() implies self@.anims[j]
                        == spec_restart(s0, *key)[j] by {
                        if j != i as int {
                            assert(s0[j].0 != *key);
                        }
                    }
                    assert(self@.anims =~= spec_restart(s0, *key));
                    lemma_anims_wf_same_shape(s0, self@.anims);
                }
            },
            None => {
                proof {
                    assert forall|j: int| 0 <= j < s0.len() implies self@.anims[j]
                        == spec_restart(s0, *key)[j] by {
                        assert(s0[j].0 != *key);
                    }
                    assert(self@.anims =~= spec_restart(s0, *key));
                }
            },
        }
    }
}

/// The timer accumulator after folding one tick's delta in, capped so it
/// fits a `u64` (time is counted in whole milliseconds, so the cap is out of
/// reach in practice).
pub open spec fn spec_accumulate(elapsed_ms: u64, delta_ms: u64) -> u64 {
    if elapsed_ms + delta_ms > u64::MAX {
        u64::MAX
    } else {
        (elapsed_ms + delta_ms) as u64
    }
}

/// One animation after crossing `steps` frame boundaries in a single tick,
/// with `rem` milliseconds left in the accumulator. Reaching past the last
/// frame follows the clip's repeat mode: `Loop` wraps and keeps playing,
/// `Once` stops and rewinds to frame 0, `Pause` stops frozen on the last
/// frame; the two stopping modes also clear the accumulator.
pub open spec fn spec_cross(m: AnimationModel, steps: int, rem: u64) -> AnimationModel {
    let n = m.frames.len() as int;
    let c = m.current_frame as int;
    match m.repeat_mode {
        RepeatMode::Loop => AnimationModel {
            current_frame: ((c + steps) % n) as usize,
            elapsed_ms: rem,
            ..m
        },
        RepeatMode::Once => if steps >= n - c {
            AnimationModel { playing: false, current_frame: 0, elapsed_ms: 0, ..m }
        } else {
            AnimationModel { current_frame: (c + steps) as usize, elapsed_ms: rem, ..m }
        },
        RepeatMode::Pause => if steps >= n - c {
            AnimationModel { playing: false, current_frame: (n - 1) as usize, elapsed_ms: 0, ..m }
        } else {
            AnimationModel { current_frame: (c + steps) as usize, elapsed_ms: rem, ..m }
        },
    }
}

/// One animation after one tick of `delta_ms`: the delta joins the timer
/// accumulator, each whole multiple of the clip's per-frame duration in the
/// accumulator crosses one frame boundary, and the remainder is carried
/// over (overshoot is kept, not discarded, so frame progress does not depend
/// on how elapsed time is split into ticks). A stopped animation does not
/// advance, and a clip with a zero per-frame duration crosses exactly one
/// boundary per tick.
pub open spec fn spec_advance(m: AnimationModel, delta_ms: u64) -> AnimationModel {
    if !m.playing {
        m
    } else if m.duration_ms == 0 {
        spec_cross(m, 1, 0)
    } else {
        let total = spec_accumulate(m.elapsed_ms, delta_ms) as int;
        let d = m.duration_ms as int;
        if total / d == 0 {
            AnimationModel { elapsed_ms: total as u64, ..m }
        } else {
            spec_cross(m, total / d, (total % d) as u64)
        }
    }
}

/// Advancing keeps an animation well-formed; it also never touches the clip
/// definition, and the accumulator never exceeds the time that has gone in.
pub proof fn lemma_advance_preserves_wf(m: AnimationModel, delta_ms: u64)
    requires
        m.wf(),
    ensures
        ({
            let m2 = spec_advance(m, delta_ms);
            &&& m2.wf()
            &&& m2.frames == m.frames
            &&& m2.duration_ms == m.duration_ms
            &&& m2.spritesheet == m.spritesheet
            &&& m2.priority == m.priority
            &&& m2.repeat_mode == m.repeat_mode
            &&& m2.elapsed_ms <= m.elapsed_ms + delta_ms
        }),
{
    let n = m.frames.len() as int;
    let c = m.current_frame as int;
    if m.playing {
        if m.duration_ms == 0 {
            lemma_mod_division_less_than_divisor(c + 1, n);
        } else {
            let total = spec_accumulate(m.elapsed_ms, delta_ms) as int;
            let d = m.duration_ms as int;
            let steps = total / d;
            lemma_div_pos_is_pos(total, d);
            if steps == 0 {
                lemma_small_div_converse(total, d);
            } else {
                lemma_mod_division_less_than_divisor(total, d);
                lemma_mod_decreases(total as nat, d as nat);
                lemma_mod_division_less_than_divisor(c + steps, n);
            }
        }
    }
}

impl Animation {
    /// The spritesheet reference this clip draws from.
    pub fn spritesheet_id(&self) -> (r: SpritesheetId)
        ensures
            r == self@.spritesheet,
    {
        self.spritesheet
    }

    /// The frame the animation currently shows.
    pub fn current_frame_data(&self) -> (f: Frame)
        requires
            self@.wf(),
        ensures
            f == self@.frames[self@.current_frame as int],
    {
        self.frames[self.current_frame]
    }

    /// Crosses `steps` frame boundaries and leaves `rem` in the accumulator.
    fn cross_boundaries(&mut self, steps: u64, rem: u64)
        requires
            old(self)@.wf(),
            old(self)@.playing,
            steps >= 1,
            old(self)@.duration_ms > 0 ==> rem < old(self)@.duration_ms,
            old(self)@.duration_ms == 0 ==> rem == 0,
        ensures
            final(self)@ == spec_cross(old(self)@, steps as int, rem),
            final(self)@.wf(),
    {
        let n = self.frames.len();
        let c = self.current_frame;
        let mode = self.repeat_mode;
        match mode {
            RepeatMode::Loop => {
                let n64 = n as u64;
                let c64 = c as u64;
                let s = steps % n64;
                let nc64 = if s < n64 - c64 {
                    c64 + s
                } else {
                    s - (n64 - c64)
                };
                proof {
                    let ci = c as int;
                    let si = steps as int;
                    let ni = n as int;
                    lemma_add_mod_noop_right(ci, si, ni);
                    let x = ci + si % ni;
                    if x < ni {
                        lemma_small_mod(x as nat, ni as nat);
                    } else {
                        lemma_mod_sub_multiples_vanish(x, ni);
                        lemma_small_mod((x - ni) as nat, ni as nat);
                    }
                    assert(nc64 as int == (ci + si) % ni);
                    assert(nc64 < n64);
                }
                self.current_frame = nc64 as usize;
                self.elapsed_ms = rem;
            },
            RepeatMode::Once => {
                let remaining = (n - c) as u64;
                if steps >= remaining {
                    self.playing = false;
                    self.current_frame = 0;
                    self.elapsed_ms = 0;
                } else {
                    self.current_frame = c + (steps as usize);
                    self.elapsed_ms = rem;
                }
            },
            RepeatMode::Pause => {
                let remaining = (n - c) as u64;
                if steps >= remaining {
                    self.playing = false;
                    self.current_frame = n - 1;
                    self.elapsed_ms = 0;
                } else {
                    self.current_frame = c + (steps as usize);
                    self.elapsed_ms = rem;
                }
            },
        }
    }

    /// Advances one playing animation by one tick of `delta_ms`, exactly as
    /// [`spec_advance`] says.
    pub(crate) fn advance(&mut self, delta_ms: u64)
        requires
            old(self)@.wf(),
            old(self)@.playing,
        ensures
            final(self)@ == spec_advance(old(self)@, delta_ms),
            final(self)@.wf(),
    {
        let d = self.duration_ms;
        if d == 0 {
            self.cross_boundaries(1, 0);
        } else {
            let e = self.elapsed_ms;
            let total = if delta_ms > u64::MAX - e {
                u64::MAX
            } else {
                e + delta_ms
            };
            let steps = total / d;
            let rem = total % d;
            if steps == 0 {
                proof {
                    lemma_small_div_converse(total as int, d as int);
                }
                self.elapsed_ms = total;
            } else {
                proof {
                    lemma_mod_division_less_than_divisor(total as int, d as int);
                }
                self.cross_boundaries(steps, rem);
            }
        }
    }
}

/// Errors surfaced while registering animations. Runtime commands never
/// fail: a command naming an unknown key is dropped as a no-op, and an
/// out-of-range frame read cannot occur because the advance pass keeps every
/// `current_frame` inside its clip.
#[derive(Clone, Copy, PartialEq, Eq, Structural, Debug)]
pub enum AnimationError {
    /// An empty frame list was passed to `register_animation`.
    InvalidClip,
}

/// The mathematical value of an [`AnimatorBuilder`]: the current defaults
/// that apply to the next registration, plus the clips registered so far.
#[verifier::ext_equal]
pub ghost struct AnimatorBuilderModel {
    pub spritesheet: SpritesheetId,
    pub duration_ms: u64,
    pub priority: usize,
    pub repeat_mode: RepeatMode,
    pub anims: Seq<(AnimationKey, AnimationModel)>,
}

/// The registration list after `register_animation(key, frames)` succeeds:
/// a fresh clip built from the builder's current defaults, stopped at frame
/// 0 with an un-elapsed timer. Registering an already-used key replaces that
/// key's clip in place (last write wins); a new key goes to the end.
pub open spec fn spec_register(
    b: AnimatorBuilderModel,
    key: AnimationKey,
    frames: Seq<Frame>,
) -> Seq<(AnimationKey, AnimationModel)> {
    let m = AnimationModel {
        frames,
        spritesheet: b.spritesheet,
        duration_ms: b.duration_ms,
        priority: b.priority,
        repeat_mode: b.repeat_mode,
        elapsed_ms: 0,
        current_frame: 0,
        playing: false,
    };
    if has_key(b.anims, key) {
        b.anims.update(key_index(b.anims, key), (key, m))
    } else {
        b.anims.push((key, m))
    }
}

/// Registration preserves well-formedness: the fresh clip starts at frame 0
/// of a non-empty frame list with an un-elapsed timer, and keys stay
/// distinct whether the clip replaces one in place or is appended.
pub proof fn lemma_register_wf(b: AnimatorBuilderModel, key: AnimationKey, frames: Seq<Frame>)
    requires
        anims_wf(b.anims),
        1 <= frames.len() <= usize::MAX,
    ensures
        anims_wf(spec_register(b, key, frames)),
{
    let s2 = spec_register(b, key, frames);
    if has_key(b.anims, key) {
        let i = key_index(b.anims, key);
        assert(0 <= i < b.anims.len() && b.anims[i].0 == key);
        assert forall|j: int| 0 <= j < s2.len() implies (#[trigger] s2[j]).0 == b.anims[j].0 by {}
        assert forall|j: int| 0 <= j < s2.len() implies (#[trigger] s2[j]).1.wf() by {
            if j != i {
                assert(b.anims[j].1.wf());
            }
        }
    } else {
        assert forall|j: int| 0 <= j < b.anims.len() implies (#[trigger] s2[j]) == b.anims[j] by {}
        assert forall|j: int| 0 <= j < s2.len() implies (#[trigger] s2[j]).1.wf() by {
            if j < b.anims.len() {
                assert(b.anims[j].1.wf());
            }
        }
        assert forall|a: int, b_: int| 0 <= a < b_ < s2.len() implies (#[trigger] s2[a]).0
            != (#[trigger] s2[b_]).0 by {
            if b_ == s2.len() - 1 {
                assert(s2[a].0 == b.anims[a].0);
                assert(b.anims[a].0 != key);
            }
        }
    }
}

/// Collects key-to-clip registrations and produces an [`Animator`]. The
/// `spritesheet`, `duration_ms`, `priority` and `repeat_mode` fields are
/// current defaults: each applies to registrations made after it is set and
/// never retroactively changes an already-registered clip.
pub struct AnimatorBuilder {
    spritesheet: SpritesheetId,
    duration_ms: u64,
    priority: usize,
    repeat_mode: RepeatMode,
    animations: Vec<(AnimationKey, Animation)>,
}

impl View for AnimatorBuilder {
    type V = AnimatorBuilderModel;

    closed spec fn view(&self) -> AnimatorBuilderModel {
        AnimatorBuilderModel {
            spritesheet: self.spritesheet,
            duration_ms: self.duration_ms,
            priority: self.priority,
            repeat_mode: self.repeat_mode,
            anims: self.animations@.map_values(|p: (AnimationKey, Animation)| (p.0, p.1@)),
        }
    }
}

impl AnimatorBuilder {
    /// The builder's structural invariant: registered keys are distinct and
    /// every registered clip is well-formed.
    pub open spec fn wf(&self) -> bool {
        anims_wf(self@.anims)
    }

    /// A builder with no registrations, the given initial defaults, and a
    /// default priority of 0.
    pub fn new(spritesheet: SpritesheetId, duration_ms: u64, repeat_mode: RepeatMode) -> (r: Self)
        ensures
            r.wf(),
            r@ == (AnimatorBuilderModel {
                spritesheet,
                duration_ms,
                priority: 0,
                repeat_mode,
                anims: Seq::empty(),
            }),
    {
        AnimatorBuilder {
            spritesheet,
            duration_ms,
            priority: 0,
            repeat_mode,
            animations: Vec::new(),
        }
    }

    /// Sets the spritesheet that clips registered from now on draw from.
    pub fn set_spritesheet(&mut self, spritesheet: SpritesheetId) -> (r: &mut Self)
        ensures
            r@ == (AnimatorBuilderModel { spritesheet, ..old(self)@ }),
            *final(self) == *final(r),
    {
        self.spritesheet = spritesheet;
        self
    }

    /// Sets the per-frame duration, in milliseconds, for clips registered
    /// from now on.
    pub fn set_duration(&mut self, duration_ms: u64) -> (r: &mut Self)
        ensures
            r@ == (AnimatorBuilderModel { duration_ms, ..old(self)@ }),
            *final(self) == *final(r),
    {
        self.duration_ms = duration_ms;
        self
    }

    /// Sets the priority for clips registered from now on (higher wins).
    pub fn set_priority(&mut self, priority: usize) -> (r: &mut Self)
        ensures
            r@ == (AnimatorBuilderModel { priority, ..old(self)@ }),
            *final(self) == *final(r),
    {
        self.priority = priority;
        self
    }

    /// Sets the repeat mode for clips registered from now on.
    pub fn set_repeat_mode(&mut self, repeat_mode: RepeatMode) -> (r: &mut Self)
        ensures
            r@ == (AnimatorBuilderModel { repeat_mode, ..old(self)@ }),
            *final(self) == *final(r),
    {
        self.repeat_mode = repeat_mode;
        self
    }

    /// Registers (or, for an already-used key, replaces) a clip made of the
    /// given frames and the builder's current defaults. An empty frame list
    /// is rejected as [`AnimationError::InvalidClip`] and registers nothing.
    pub fn register_animation(&mut self, key: AnimationKey, frames: Vec<Frame>) -> (r: Result<
        (),
        AnimationError,
    >)
        requires
            old(self).wf(),
        ensures
            final(self).wf(),
            frames@.len() == 0 ==> r == Err::<(), AnimationError>(AnimationError::InvalidClip)
                && final(self)@ == old(self)@,
            frames@.len() > 0 ==> r == Ok::<(), AnimationError>(()) && final(self)@
                == (AnimatorBuilderModel { anims: spec_register(old(self)@, key, frames@), ..old(
                self,
            )@ }),
    {
        if frames.len() == 0 {
            return Err(AnimationError::InvalidClip);
        }
        let ghost b0 = self@;
        let anim = Animation {
            frames,
            spritesheet: self.spritesheet,
            duration_ms: self.duration_ms,
            priority: self.priority,
            repeat_mode: self.repeat_mode,
            elapsed_ms: 0,
            current_frame: 0,
            playing: false,
        };
        match find_key(&self.animations, key) {
            Some(i) => {
                self.animations[i] = (key, anim);
                proof {
                    lemma_key_index(b0.anims, key, i as int);
                    let s2 = spec_register(b0, key, anim@.frames);
                    assert forall|j: int| 0 <= j < b0.anims.len() implies self@.anims[j]
                        == s2[j] by {}
                    assert(self@.anims =~= s2);
                    lemma_register_wf(b0, key, anim@.frames);
                }
            },
            None => {
                self.animations.push((key, anim));
                proof {
                    assert forall|j: int| 0 <= j < b0.anims.len() implies (#[trigger] b0.anims[j]).0
                        != key by {
                        assert(b0.anims[j].0 == old(self).animations@[j].0);
                    }
                    assert(!has_key(b0.anims, key));
                    let s2 = spec_register(b0, key, anim@.frames);
                    assert forall|j: int| 0 <= j < s2.len() implies self@.anims[j] == s2[j] by {}
                    assert(self@.anims =~= s2);
                    lemma_register_wf(b0, key, anim@.frames);
                }
            },
        }
        Ok(())
    }

    /// Consumes the registrations, handing an [`Animator`] whose every
    /// animation starts stopped, at frame 0, with a fresh timer. The builder
    /// is left empty.
    pub fn build(&mut self) -> (r: Animator)
        requires
            old(self).wf(),
        ensures
            r.wf(),
            r@.playing == false,
            r@.changed == false,
            r@.anims == old(self)@.anims,
            final(self)@ == (AnimatorBuilderModel { anims: Seq::empty(), ..old(self)@ }),
    {
        let mut taken: Vec<(AnimationKey, Animation)> = Vec::new();
        core::mem::swap(&mut taken, &mut self.animations);
        Animator { playing: false, changed: false, animations: taken }
    }
}

} // verus!
