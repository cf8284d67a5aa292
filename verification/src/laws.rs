//! The guarantees the animation state machine gives as a whole, each stated
//! over the spec-level models and proved once and for all: how a looping
//! clip's frame relates to elapsed time, that one-shot and pausing clips
//! terminate, what the projection pass selects, how resuming differs from
//! restarting, and that unknown keys change nothing.

use crate::components::AnimationModel;
use crate::components::AnimatorModel;
use crate::components::RepeatMode;
use crate::components::anims_wf;
use crate::components::has_key;
use crate::components::key_index;
use crate::components::lemma_advance_preserves_wf;
use crate::components::lemma_winner_props;
use crate::components::spec_accumulate;
use crate::components::spec_advance;
use crate::components::spec_cross;
use crate::components::spec_play;
use crate::components::spec_restart;
use crate::components::spec_stop_key;
use crate::components::spec_winner;
use crate::systems::SpriteOutput;
use crate::systems::spec_project;
use crate::AnimationKey;
use vstd::arithmetic::div_mod::lemma_basic_div;
use vstd::arithmetic::div_mod::lemma_div_by_multiple;
use vstd::arithmetic::div_mod::lemma_div_is_ordered;
use vstd::arithmetic::div_mod::lemma_fundamental_div_mod;
use vstd::arithmetic::div_mod::lemma_hoist_over_denominator;
use vstd::arithmetic::div_mod::lemma_mod_division_less_than_divisor;
use vstd::arithmetic::div_mod::lemma_mod_multiples_basic;
use vstd::arithmetic::div_mod::lemma_mod_multiples_vanish;
use vstd::arithmetic::div_mod::lemma_small_div_converse;
use vstd::arithmetic::div_mod::lemma_small_mod;
use vstd::arithmetic::mul::lemma_mul_is_commutative;
use vstd::prelude::*;

verus! {

/// Frame position under `Loop`: a looping clip that starts with an empty
/// accumulator and receives exactly `k` whole per-frame durations of elapsed
/// time in one tick lands on frame `(current + k) mod N`, keeps playing, and
/// ends with an empty accumulator again.
pub proof fn lemma_loop_frame_position(m: AnimationModel, k: u64)
    requires
        m.wf(),
        m.playing,
        m.repeat_mode == RepeatMode::Loop,
        m.duration_ms > 0,
        m.elapsed_ms == 0,
        k * m.duration_ms <= u64::MAX,
    ensures
        spec_advance(m, (k * m.duration_ms) as u64) == (AnimationModel {
            current_frame: ((m.current_frame as int + k as int) % (m.frames.len() as int)) as usize,
            elapsed_ms: 0,
            ..m
        }),
{
    let d = m.duration_ms as int;
    let n = m.frames.len() as int;
    let c = m.current_frame as int;
    let total = (k as int) * d;
    lemma_div_by_multiple(k as int, d);
    lemma_mod_multiples_basic(k as int, d);
    assert(total / d == k as int);
    assert(total % d == 0);
    lemma_mod_division_less_than_divisor(c + k as int, n);
    let lhs = spec_advance(m, (k * m.duration_ms) as u64);
    let rhs = AnimationModel {
        current_frame: ((m.current_frame as int + k as int) % (m.frames.len() as int)) as usize,
        elapsed_ms: 0,
        ..m
    };
    if k == 0 {
        lemma_small_mod(c as nat, n as nat);
        assert(lhs.elapsed_ms == 0);
        assert(lhs.current_frame == rhs.current_frame);
        assert(lhs =~= rhs);
    } else {
        assert(lhs == spec_cross(m, k as int, 0));
        assert(lhs.elapsed_ms == 0);
        assert(lhs.current_frame == rhs.current_frame);
        assert(lhs =~= rhs);
    }
}

/// Splitting elapsed time across ticks changes nothing: for a clip with a
/// positive per-frame duration, two consecutive advance ticks end exactly
/// where one tick of the combined delta ends (as long as the combined time
/// fits the accumulator). This extends the single-tick laws to any run of
/// ticks with no intervening commands, however the host slices the time.
pub proof fn lemma_advance_compose(m: AnimationModel, d1: u64, d2: u64)
    requires
        m.wf(),
        m.duration_ms > 0,
        m.elapsed_ms + d1 + d2 <= u64::MAX,
    ensures
        spec_advance(spec_advance(m, d1), d2) == spec_advance(m, (d1 + d2) as u64),
{
    let m1 = spec_advance(m, d1);
    let lhs = spec_advance(m1, d2);
    let rhs = spec_advance(m, (d1 + d2) as u64);
    if !m.playing {
        assert(lhs =~= rhs);
    } else {
        let d = m.duration_ms as int;
        let n = m.frames.len() as int;
        let c = m.current_frame as int;
        let e = m.elapsed_ms as int;
        let t1 = e + d1 as int;
        let tt = e + d1 as int + d2 as int;
        let q1 = t1 / d;
        let r1 = t1 % d;
        let qt = tt / d;
        let rt = tt % d;
        lemma_mod_division_less_than_divisor(t1, d);
        lemma_mod_division_less_than_divisor(tt, d);
        lemma_fundamental_div_mod(t1, d);
        let t2 = r1 + d2 as int;
        let q2 = t2 / d;
        let r2 = t2 % d;
        lemma_mod_division_less_than_divisor(t2, d);
        lemma_mul_is_commutative(d, q1);
        lemma_hoist_over_denominator(t2, q1, d as nat);
        assert(tt == t2 + q1 * d);
        assert(qt == q1 + q2);
        lemma_mod_multiples_vanish(q1, t2, d);
        assert(rt == r2);
        assert(spec_accumulate(m.elapsed_ms, (d1 + d2) as u64) as int == tt);
        if q1 == 0 {
            lemma_small_div_converse(t1, d);
            assert(m1 == AnimationModel { elapsed_ms: t1 as u64, ..m });
            assert(spec_accumulate(m1.elapsed_ms, d2) as int == tt);
            if qt == 0 {
                assert(lhs =~= rhs);
            } else {
                assert(lhs == spec_cross(m1, qt, rt as u64));
                assert(rhs == spec_cross(m, qt, rt as u64));
                assert(lhs =~= rhs);
            }
        } else {
            assert(m1 == spec_cross(m, q1, r1 as u64));
            assert(q2 >= 0 && qt >= q1 >= 1);
            assert(rhs == spec_cross(m, qt, rt as u64));
            match m.repeat_mode {
                RepeatMode::Loop => {
                    lemma_mod_division_less_than_divisor(c + q1, n);
                    let c1 = (c + q1) % n;
                    assert(m1.current_frame as int == c1);
                    assert(m1.playing && m1.elapsed_ms as int == r1);
                    assert(spec_accumulate(m1.elapsed_ms, d2) as int == t2);
                    if q2 == 0 {
                        lemma_small_div_converse(t2, d);
                        lemma_small_mod(t2 as nat, d as nat);
                        assert(lhs == AnimationModel { elapsed_ms: t2 as u64, ..m1 });
                        assert(lhs =~= rhs);
                    } else {
                        assert(lhs == spec_cross(m1, q2, r2 as u64));
                        lemma_fundamental_div_mod(c + q1, n);
                        lemma_mod_multiples_vanish((c + q1) / n, c1 + q2, n);
                        assert(n * ((c + q1) / n) + c1 == c + q1);
                        assert((c1 + q2) % n == (c + q1 + q2) % n);
                        assert(lhs =~= rhs);
                    }
                },
                RepeatMode::Once => {
                    if q1 >= n - c {
                        assert(m1 == AnimationModel {
                            playing: false,
                            current_frame: 0,
                            elapsed_ms: 0,
                            ..m
                        });
                        assert(lhs == m1);
                        assert(qt >= n - c);
                        assert(lhs =~= rhs);
                    } else {
                        let c1 = c + q1;
                        assert(m1 == AnimationModel {
                            current_frame: c1 as usize,
                            elapsed_ms: r1 as u64,
                            ..m
                        });
                        assert(m1.playing && m1.current_frame as int == c1);
                        assert(spec_accumulate(m1.elapsed_ms, d2) as int == t2);
                        if q2 == 0 {
                            lemma_small_div_converse(t2, d);
                            lemma_small_mod(t2 as nat, d as nat);
                            assert(lhs == AnimationModel { elapsed_ms: t2 as u64, ..m1 });
                            assert(qt == q1 && qt < n - c);
                            assert(lhs =~= rhs);
                        } else {
                            assert(lhs == spec_cross(m1, q2, r2 as u64));
                            assert((q2 >= n - c1) == (qt >= n - c));
                            assert(lhs =~= rhs);
                        }
                    }
                },
                RepeatMode::Pause => {
                    if q1 >= n - c {
                        assert(m1 == AnimationModel {
                            playing: false,
                            current_frame: (n - 1) as usize,
                            elapsed_ms: 0,
                            ..m
                        });
                        assert(lhs == m1);
                        assert(qt >= n - c);
                        assert(lhs =~= rhs);
                    } else {
                        let c1 = c + q1;
                        assert(m1 == AnimationModel {
                            current_frame: c1 as usize,
                            elapsed_ms: r1 as u64,
                            ..m
                        });
                        assert(m1.playing && m1.current_frame as int == c1);
                        assert(spec_accumulate(m1.elapsed_ms, d2) as int == t2);
                        if q2 == 0 {
                            lemma_small_div_converse(t2, d);
                            lemma_small_mod(t2 as nat, d as nat);
                            assert(lhs == AnimationModel { elapsed_ms: t2 as u64, ..m1 });
                            assert(qt == q1 && qt < n - c);
                            assert(lhs =~= rhs);
                        } else {
                            assert(lhs == spec_cross(m1, q2, r2 as u64));
                            assert((q2 >= n - c1) == (qt >= n - c));
                            assert(lhs =~= rhs);
                        }
                    }
                },
            }
        }
    }
}

/// The total elapsed time of a run of ticks, in milliseconds.
pub open spec fn spec_delta_sum(deltas: Seq<u64>) -> int
    decreases deltas.len(),
{
    if deltas.len() == 0 {
        0
    } else {
        deltas[0] + spec_delta_sum(deltas.drop_first())
    }
}

/// An animation carried through a run of ticks, one advance per tick, with
/// no intervening commands.
pub open spec fn spec_advance_run(m: AnimationModel, deltas: Seq<u64>) -> AnimationModel
    decreases deltas.len(),
{
    if deltas.len() == 0 {
        m
    } else {
        spec_advance_run(spec_advance(m, deltas[0]), deltas.drop_first())
    }
}

proof fn lemma_delta_sum_nonneg(deltas: Seq<u64>)
    ensures
        spec_delta_sum(deltas) >= 0,
    decreases deltas.len(),
{
    if deltas.len() > 0 {
        lemma_delta_sum_nonneg(deltas.drop_first());
    }
}

/// Any run of ticks ends exactly where one tick of the run's whole elapsed
/// time ends: the laws stated for a single accumulated delta therefore hold
/// for every way the host slices that time, as long as the clip's per-frame
/// duration is positive and the total fits the accumulator.
pub proof fn lemma_run_is_one_tick(m: AnimationModel, deltas: Seq<u64>)
    requires
        m.wf(),
        m.duration_ms > 0,
        m.elapsed_ms + spec_delta_sum(deltas) <= u64::MAX,
    ensures
        spec_advance_run(m, deltas) == spec_advance(m, spec_delta_sum(deltas) as u64),
    decreases deltas.len(),
{
    lemma_delta_sum_nonneg(deltas);
    if deltas.len() == 0 {
        // A tick of zero milliseconds only re-parks the accumulator.
        if m.playing {
            lemma_basic_div(m.elapsed_ms as int, m.duration_ms as int);
            assert(spec_advance(m, 0) =~= m);
        }
    } else {
        let first = deltas[0];
        let rest = deltas.drop_first();
        let m1 = spec_advance(m, first);
        lemma_delta_sum_nonneg(rest);
        lemma_advance_preserves_wf(m, first);
        lemma_run_is_one_tick(m1, rest);
        lemma_advance_compose(m, first, spec_delta_sum(rest) as u64);
        assert(spec_delta_sum(deltas) == first + spec_delta_sum(rest));
    }
}

/// `Once` termination: a one-shot clip handed at least enough time to cross
/// its remaining frames stops and rewinds to frame 0 — and once stopped, no
/// amount of further elapsed time advances it again.
pub proof fn lemma_once_terminates(m: AnimationModel, delta_ms: u64)
    requires
        m.wf(),
        m.playing,
        m.repeat_mode == RepeatMode::Once,
        m.duration_ms > 0,
        m.elapsed_ms == 0,
        delta_ms >= (m.frames.len() - m.current_frame) * m.duration_ms,
    ensures
        ({
            let m2 = spec_advance(m, delta_ms);
            &&& m2.playing == false
            &&& m2.current_frame == 0
            &&& forall|later: u64| #[trigger] spec_advance(m2, later) == m2
        }),
{
    let d = m.duration_ms as int;
    let n = m.frames.len() as int;
    let c = m.current_frame as int;
    let total = delta_ms as int;
    lemma_div_by_multiple(n - c, d);
    lemma_div_is_ordered((n - c) * d, total, d);
    assert(total / d >= n - c);
}

/// `Pause` freeze: a pausing clip handed at least enough time to cross its
/// remaining frames stops frozen on the last frame — and once frozen, no
/// amount of further elapsed time moves it.
pub proof fn lemma_pause_freezes(m: AnimationModel, delta_ms: u64)
    requires
        m.wf(),
        m.playing,
        m.repeat_mode == RepeatMode::Pause,
        m.duration_ms > 0,
        m.elapsed_ms == 0,
        delta_ms >= (m.frames.len() - m.current_frame) * m.duration_ms,
    ensures
        ({
            let m2 = spec_advance(m, delta_ms);
            &&& m2.playing == false
            &&& m2.current_frame as int == m.frames.len() - 1
            &&& forall|later: u64| #[trigger] spec_advance(m2, later) == m2
        }),
{
    let d = m.duration_ms as int;
    let n = m.frames.len() as int;
    let c = m.current_frame as int;
    let total = delta_ms as int;
    lemma_div_by_multiple(n - c, d);
    lemma_div_is_ordered((n - c) * d, total, d);
    assert(total / d >= n - c);
}

/// Priority selection: whenever at least one animation is playing, the
/// projection pass writes the frame data of a playing animation that no
/// other playing animation outranks — regardless of registration order.
pub proof fn lemma_projection_selects_highest(am: AnimatorModel, out: SpriteOutput)
    requires
        exists|j: int| 0 <= j < am.anims.len() && (#[trigger] am.anims[j]).1.playing,
    ensures
        spec_winner(am.anims) is Some,
        ({
            let w = spec_winner(am.anims)->0;
            let a = am.anims[w].1;
            let f = a.frames[a.current_frame as int];
            &&& 0 <= w < am.anims.len()
            &&& a.playing
            &&& forall|j: int|
                0 <= j < am.anims.len() && (#[trigger] am.anims[j]).1.playing
                    ==> am.anims[j].1.priority <= a.priority
            &&& spec_project(am, out) == (SpriteOutput {
                frame_index: f.index,
                flip_x: f.flip_x,
                flip_y: f.flip_y,
                spritesheet: a.spritesheet,
            })
        }),
{
    lemma_winner_props(am.anims);
}

/// Resume against restart: `play` marks the named animation playing while
/// leaving its frame where it stopped; `restart` marks it playing at frame 0
/// with a fresh timer.
pub proof fn lemma_resume_semantics(s: Seq<(AnimationKey, AnimationModel)>, key: AnimationKey)
    requires
        anims_wf(s),
        has_key(s, key),
    ensures
        ({
            let i = key_index(s, key);
            &&& 0 <= i < s.len()
            &&& spec_play(s, key)[i].1.playing
            &&& spec_play(s, key)[i].1.current_frame == s[i].1.current_frame
            &&& spec_play(s, key)[i].1.elapsed_ms == s[i].1.elapsed_ms
            &&& spec_restart(s, key)[i].1.playing
            &&& spec_restart(s, key)[i].1.current_frame == 0
            &&& spec_restart(s, key)[i].1.elapsed_ms == 0
        }),
{
    let i = key_index(s, key);
    assert(0 <= i < s.len() && s[i].0 == key);
}

/// Unknown keys are no-ops: a command naming a key that was never
/// registered leaves every animation exactly as it was.
pub proof fn lemma_unknown_key_noop(s: Seq<(AnimationKey, AnimationModel)>, key: AnimationKey)
    requires
        !has_key(s, key),
    ensures
        spec_play(s, key) == s,
        spec_restart(s, key) == s,
        spec_stop_key(s, key) == s,
{
    assert forall|j: int| 0 <= j < s.len() implies spec_restart(s, key)[j] == s[j] by {
        assert(s[j].0 != key);
    }
    assert(spec_restart(s, key) =~= s);
    assert forall|j: int| 0 <= j < s.len() implies spec_stop_key(s, key)[j] == s[j] by {
        assert(s[j].0 != key);
    }
    assert(spec_stop_key(s, key) =~= s);
}

} // verus!
