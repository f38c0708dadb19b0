//! Animation frames, clips and the controller that picks the active clip.
//!
//! A clip holds at least one frame and points at a current one. Elapsed
//! time and playback speed are held as encodings of `f32` values (see
//! `f32_bits`); advancing a clip by a span of time adds floating-point
//! milliseconds and is done outside this library, which supplies the step
//! taken each time a frame's duration has run out.
use vstd::prelude::*;
use crate::editor::layers::LayerStack;
use crate::f32_bits::{clamped, ONE, ZERO};
use crate::text::str_equal;

verus! {

/// Whether an animation is running.
#[derive(Clone, Copy, Debug, PartialEq, Eq, Structural)]
pub enum PlaybackState {
    Stopped,
    Playing,
    Paused,
}

impl Default for PlaybackState {
    /// Stopped.
    fn default() -> (s: PlaybackState)
        ensures
            s == PlaybackState::Stopped,
    {
        PlaybackState::Stopped
    }
}

/// Duration of a frame when none is chosen: 100 ms (10 frames a second).
pub const DEFAULT_DURATION_MS: u32 = 100;

/// Encoding of `0.1`, the slowest playback speed.
pub const MIN_SPEED: u32 = 0x3DCC_CCCD;

/// Encoding of `4.0`, the fastest playback speed.
pub const MAX_SPEED: u32 = 0x4080_0000;

/// One frame of an animation: its number, how long it shows, and its layers.
#[derive(Clone, Debug)]
pub struct Frame {
    pub frame_num: u32,
    pub duration_ms: u32,
    pub layers: LayerStack,
}

impl Frame {
    pub fn new(frame_num: u32, duration_ms: u32, layers: LayerStack) -> (f: Frame)
        ensures
            f.frame_num == frame_num,
            f.duration_ms == duration_ms,
            f.layers == layers,
    {
        Frame { frame_num, duration_ms, layers }
    }
}

/// Sum of the frames' durations.
pub open spec fn total_duration(frames: Seq<Frame>) -> int
    decreases frames.len(),
{
    if frames.len() == 0 {
        0
    } else {
        total_duration(frames.drop_last()) + frames.last().duration_ms
    }
}

/// A named sequence of frames with playback controls.
#[derive(Clone, Debug)]
pub struct AnimationClip {
    pub name: String,
    frames: Vec<Frame>,
    current_frame_idx: usize,
    playback_state: PlaybackState,
    looping: bool,
    elapsed_bits: u32,
    speed_bits: u32,
}

impl AnimationClip {
    /// The clip's name.
    pub closed spec fn name_seq(&self) -> Seq<char> {
        self.name@
    }

    /// The frames, in playing order.
    pub closed spec fn frame_seq(&self) -> Seq<Frame> {
        self.frames@
    }

    /// Index of the current frame.
    pub closed spec fn current(&self) -> int {
        self.current_frame_idx as int
    }

    pub closed spec fn state(&self) -> PlaybackState {
        self.playback_state
    }

    pub closed spec fn loops(&self) -> bool {
        self.looping
    }

    /// Milliseconds spent on the current frame, as an `f32` encoding.
    pub closed spec fn elapsed(&self) -> u32 {
        self.elapsed_bits
    }

    /// Playback speed factor, as an `f32` encoding.
    pub closed spec fn speed(&self) -> u32 {
        self.speed_bits
    }

    /// At least one frame, and the current index points at one.
    pub open spec fn wf(&self) -> bool {
        1 <= self.frame_seq().len() && 0 <= self.current() < self.frame_seq().len()
    }

    /// A stopped, looping clip at normal speed holding one frame.
    pub fn new(name: &str, first_frame: Frame) -> (c: AnimationClip)
        ensures
            c.wf(),
            c.name_seq() == name@,
            c.frame_seq() == seq![first_frame],
            c.current() == 0,
            c.state() == PlaybackState::Stopped,
            c.loops(),
            c.elapsed() == ZERO,
            c.speed() == ONE,
    {
        let mut frames: Vec<Frame> = Vec::new();
        frames.push(first_frame);
        let c = AnimationClip {
            name: String::from_str(name),
            frames,
            current_frame_idx: 0,
            playback_state: PlaybackState::Stopped,
            looping: true,
            elapsed_bits: ZERO,
            speed_bits: ONE,
        };
        assert(c.frames@ =~= seq![first_frame]);
        c
    }

    /// Append a frame at the end.
    pub fn add_frame(&mut self, frame: Frame)
        requires
            old(self).wf(),
        ensures
            final(self).wf(),
            final(self).frame_seq() == old(self).frame_seq().push(frame),
            final(self).name_seq() == old(self).name_seq(),
            final(self).current() == old(self).current(),
            final(self).state() == old(self).state(),
            final(self).loops() == old(self).loops(),
            final(self).elapsed() == old(self).elapsed(),
            final(self).speed() == old(self).speed(),
    {
        self.frames.push(frame);
    }

    /// The current frame.
    pub fn current_frame(&self) -> (f: &Frame)
        requires
            self.wf(),
        ensures
            *f == self.frame_seq()[self.current()],
    {
        &self.frames[self.current_frame_idx]
    }

    /// The frames, in playing order.
    pub fn frames(&self) -> (r: &[Frame])
        ensures
            r@ == self.frame_seq(),
    {
        self.frames.as_slice()
    }

    /// The frames, in playing order.
    pub fn get_frames(&self) -> (r: &[Frame])
        ensures
            r@ == self.frame_seq(),
    {
        self.frames()
    }

    /// The clip's name.
    pub fn get_name(&self) -> (r: &str)
        ensures
            r@ == self.name_seq(),
    {
        self.name.as_str()
    }

    pub fn frame_count(&self) -> (n: usize)
        ensures
            n == self.frame_seq().len(),
    {
        self.frames.len()
    }

    pub fn current_frame_idx(&self) -> (i: usize)
        ensures
            i == self.current(),
    {
        self.current_frame_idx
    }

    pub fn playback_state(&self) -> (s: PlaybackState)
        ensures
            s == self.state(),
    {
        self.playback_state
    }

    pub fn set_looping(&mut self, looping: bool)
        ensures
            final(self).loops() == looping,
            final(self).name_seq() == old(self).name_seq(),
            final(self).frame_seq() == old(self).frame_seq(),
            final(self).current() == old(self).current(),
            final(self).state() == old(self).state(),
            final(self).elapsed() == old(self).elapsed(),
            final(self).speed() == old(self).speed(),
    {
        self.looping = looping;
    }

    pub fn is_looping(&self) -> (b: bool)
        ensures
            b == self.loops(),
    {
        self.looping
    }

    /// Milliseconds spent on the current frame, as an `f32` encoding.
    pub fn elapsed_bits(&self) -> (b: u32)
        ensures
            b == self.elapsed(),
    {
        self.elapsed_bits
    }

    /// Playback speed factor, as an `f32` encoding.
    pub fn speed_bits(&self) -> (b: u32)
        ensures
            b == self.speed(),
    {
        self.speed_bits
    }

    /// Set the playback speed factor, clamped into 0.1 to 4.0 (a NaN is
    /// kept as it is).
    pub fn set_speed(&mut self, speed_bits: u32)
        ensures
            final(self).speed() == clamped(speed_bits, MIN_SPEED, MAX_SPEED),
            final(self).name_seq() == old(self).name_seq(),
            final(self).frame_seq() == old(self).frame_seq(),
            final(self).current() == old(self).current(),
            final(self).state() == old(self).state(),
            final(self).loops() == old(self).loops(),
            final(self).elapsed() == old(self).elapsed(),
    {
        self.speed_bits = crate::f32_bits::clamp(speed_bits, MIN_SPEED, MAX_SPEED);
    }

    /// Start playing, from the start of the current frame.
    pub fn play(&mut self)
        ensures
            final(self).state() == PlaybackState::Playing,
            final(self).elapsed() == ZERO,
            final(self).name_seq() == old(self).name_seq(),
            final(self).frame_seq() == old(self).frame_seq(),
            final(self).current() == old(self).current(),
            final(self).loops() == old(self).loops(),
            final(self).speed() == old(self).speed(),
    {
        self.playback_state = PlaybackState::Playing;
        self.elapsed_bits = ZERO;
    }

    /// Pause where the clip is.
    pub fn pause(&mut self)
        ensures
            final(self).state() == PlaybackState::Paused,
            final(self).name_seq() == old(self).name_seq(),
            final(self).frame_seq() == old(self).frame_seq(),
            final(self).current() == old(self).current(),
            final(self).loops() == old(self).loops(),
            final(self).elapsed() == old(self).elapsed(),
            final(self).speed() == old(self).speed(),
    {
        self.playback_state = PlaybackState::Paused;
    }

    /// Stop and go back to the first frame.
    pub fn stop(&mut self)
        requires
            old(self).wf(),
        ensures
            final(self).wf(),
            final(self).state() == PlaybackState::Stopped,
            final(self).current() == 0,
            final(self).elapsed() == ZERO,
            final(self).name_seq() == old(self).name_seq(),
            final(self).frame_seq() == old(self).frame_seq(),
            final(self).loops() == old(self).loops(),
            final(self).speed() == old(self).speed(),
    {
        self.playback_state = PlaybackState::Stopped;
        self.current_frame_idx = 0;
        self.elapsed_bits = ZERO;
    }

    /// Go to the frame at `idx`, from its start; fails (returns false,
    /// nothing changed) when there is no such frame.
    pub fn set_frame(&mut self, idx: usize) -> (ok: bool)
        requires
            old(self).wf(),
        ensures
            final(self).wf(),
            ok == (idx < old(self).frame_seq().len()),
            ok ==> final(self).current() == idx && final(self).elapsed() == ZERO,
            !ok ==> final(self).current() == old(self).current() && final(self).elapsed() == old(self).elapsed(),
            final(self).name_seq() == old(self).name_seq(),
            final(self).frame_seq() == old(self).frame_seq(),
            final(self).state() == old(self).state(),
            final(self).loops() == old(self).loops(),
            final(self).speed() == old(self).speed(),
    {
        if idx < self.frames.len() {
            self.current_frame_idx = idx;
            self.elapsed_bits = ZERO;
            true
        } else {
            false
        }
    }

    /// Go to the next frame; after the last one, back to the first when the
    /// clip loops, else stay.
    pub fn next_frame(&mut self)
        requires
            old(self).wf(),
        ensures
            final(self).wf(),
            final(self).current() == spec_next(old(self).current(), old(self).frame_seq().len() as int, old(self).loops()),
            final(self).elapsed() == (if old(self).current() + 1 < old(self).frame_seq().len() || old(self).loops() {
                ZERO
            } else {
                old(self).elapsed()
            }),
            final(self).name_seq() == old(self).name_seq(),
            final(self).frame_seq() == old(self).frame_seq(),
            final(self).state() == old(self).state(),
            final(self).loops() == old(self).loops(),
            final(self).speed() == old(self).speed(),
    {
        let n = self.frames.len();
        if self.current_frame_idx + 1 < n {
            self.current_frame_idx = self.current_frame_idx + 1;
            self.elapsed_bits = ZERO;
        } else if self.looping {
            self.current_frame_idx = 0;
            self.elapsed_bits = ZERO;
        }
    }

    /// Go to the previous frame; before the first one, to the last when the
    /// clip loops, else stay.
    pub fn prev_frame(&mut self)
        requires
            old(self).wf(),
        ensures
            final(self).wf(),
            final(self).current() == spec_prev(old(self).current(), old(self).frame_seq().len() as int, old(self).loops()),
            final(self).elapsed() == (if old(self).current() > 0 || old(self).loops() {
                ZERO
            } else {
                old(self).elapsed()
            }),
            final(self).name_seq() == old(self).name_seq(),
            final(self).frame_seq() == old(self).frame_seq(),
            final(self).state() == old(self).state(),
            final(self).loops() == old(self).loops(),
            final(self).speed() == old(self).speed(),
    {
        if self.current_frame_idx > 0 {
            self.current_frame_idx = self.current_frame_idx - 1;
            self.elapsed_bits = ZERO;
        } else if self.looping {
            self.current_frame_idx = self.frames.len() - 1;
            self.elapsed_bits = ZERO;
        }
    }

    /// The step taken when the current frame's duration has run out while
    /// playing: go to the next frame, or back to the first when the clip
    /// loops, or else stop on the last frame. Returns whether playback goes
    /// on.
    pub fn advance_on_frame_end(&mut self) -> (goes_on: bool)
        requires
            old(self).wf(),
        ensures
            final(self).wf(),
            goes_on == (old(self).current() + 1 < old(self).frame_seq().len() || old(self).loops()),
            final(self).current() == spec_next(old(self).current(), old(self).frame_seq().len() as int, old(self).loops()),
            final(self).state() == (if goes_on { old(self).state() } else { PlaybackState::Stopped }),
            final(self).name_seq() == old(self).name_seq(),
            final(self).frame_seq() == old(self).frame_seq(),
            final(self).loops() == old(self).loops(),
            final(self).elapsed() == old(self).elapsed(),
            final(self).speed() == old(self).speed(),
    {
        let n = self.frames.len();
        if self.current_frame_idx + 1 < n {
            self.current_frame_idx = self.current_frame_idx + 1;
            true
        } else if self.looping {
            self.current_frame_idx = 0;
            true
        } else {
            self.playback_state = PlaybackState::Stopped;
            false
        }
    }

    /// Record the milliseconds spent on the current frame, as an `f32`
    /// encoding.
    pub fn set_elapsed_bits(&mut self, elapsed_bits: u32)
        ensures
            final(self).elapsed() == elapsed_bits,
            final(self).name_seq() == old(self).name_seq(),
            final(self).frame_seq() == old(self).frame_seq(),
            final(self).current() == old(self).current(),
            final(self).state() == old(self).state(),
            final(self).loops() == old(self).loops(),
            final(self).speed() == old(self).speed(),
    {
        self.elapsed_bits = elapsed_bits;
    }

    /// Sum of the frames' durations, in milliseconds.
    pub fn total_duration_ms(&self) -> (t: u32)
        requires
            total_duration(self.frame_seq()) <= u32::MAX,
        ensures
            t == total_duration(self.frame_seq()),
    {
        let mut t: u32 = 0;
        let mut i: usize = 0;
        while i < self.frames.len()
            invariant
                i <= self.frames@.len(),
                t == total_duration(self.frames@.subrange(0, i as int)),
                total_duration(self.frames@) <= u32::MAX,
            decreases self.frames@.len() - i,
        {
            proof {
                lemma_total_duration_prefix(self.frames@, (i + 1) as int);
                assert(self.frames@.subrange(0, i + 1).drop_last() =~= self.frames@.subrange(0, i as int));
            }
            t = t + self.frames[i].duration_ms;
            i = i + 1;
        }
        assert(self.frames@.subrange(0, i as int) =~= self.frames@);
        t
    }

    /// Back to the first frame, stopped.
    pub fn reset(&mut self)
        requires
            old(self).wf(),
        ensures
            final(self).wf(),
            final(self).state() == PlaybackState::Stopped,
            final(self).current() == 0,
            final(self).elapsed() == ZERO,
            final(self).name_seq() == old(self).name_seq(),
            final(self).frame_seq() == old(self).frame_seq(),
            final(self).loops() == old(self).loops(),
            final(self).speed() == old(self).speed(),
    {
        self.current_frame_idx = 0;
        self.playback_state = PlaybackState::Stopped;
        self.elapsed_bits = ZERO;
    }
}

/// Index after `next_frame` on a clip of `n` frames.
pub open spec fn spec_next(i: int, n: int, looping: bool) -> int {
    if i + 1 < n { i + 1 } else if looping { 0 } else { i }
}

/// Index after `prev_frame` on a clip of `n` frames.
pub open spec fn spec_prev(i: int, n: int, looping: bool) -> int {
    if i > 0 { i - 1 } else if looping { n - 1 } else { i }
}

/// A prefix's total is no more than the whole total.
pub proof fn lemma_total_duration_prefix(frames: Seq<Frame>, k: int)
    requires
        0 <= k <= frames.len(),
    ensures
        total_duration(frames.subrange(0, k)) <= total_duration(frames),
    decreases frames.len(),
{
    if k < frames.len() {
        lemma_total_duration_prefix(frames.drop_last(), k);
        assert(frames.drop_last().subrange(0, k) =~= frames.subrange(0, k));
    } else {
        assert(frames.subrange(0, k) =~= frames);
    }
}

/// On a looping clip, going to the previous frame undoes going to the next
/// one, and the other way round.
pub proof fn law_prev_undoes_next(i: int, n: int)
    requires
        0 <= i < n,
    ensures
        spec_prev(spec_next(i, n, true), n, true) == i,
        spec_next(spec_prev(i, n, true), n, true) == i,
{
}

/// Stepping through frames never leaves the clip: the index stays in range.
pub proof fn law_frame_index_in_range(i: int, n: int, looping: bool)
    requires
        0 <= i < n,
    ensures
        0 <= spec_next(i, n, looping) < n,
        0 <= spec_prev(i, n, looping) < n,
{
}

/// A set of clips, one of them active.
#[derive(Clone, Debug)]
pub struct AnimationController {
    clips: Vec<AnimationClip>,
    active_clip_idx: usize,
}

impl AnimationController {
    pub closed spec fn clip_seq(&self) -> Seq<AnimationClip> {
        self.clips@
    }

    /// Index of the active clip.
    pub closed spec fn active(&self) -> int {
        self.active_clip_idx as int
    }

    /// At least one clip, the active index points at one, and every clip is
    /// well formed.
    pub open spec fn wf(&self) -> bool {
        &&& 1 <= self.clip_seq().len()
        &&& 0 <= self.active() < self.clip_seq().len()
        &&& forall|i: int| 0 <= i < self.clip_seq().len() ==> (#[trigger] self.clip_seq()[i]).wf()
    }

    /// A controller holding one clip, which is active.
    pub fn new(clip: AnimationClip) -> (c: AnimationController)
        requires
            clip.wf(),
        ensures
            c.wf(),
            c.clip_seq() == seq![clip],
            c.active() == 0,
    {
        let mut clips: Vec<AnimationClip> = Vec::new();
        clips.push(clip);
        let c = AnimationController { clips, active_clip_idx: 0 };
        assert(c.clips@ =~= seq![clip]);
        c
    }

    /// Append a clip.
    pub fn add_clip(&mut self, clip: AnimationClip)
        requires
            old(self).wf(),
            clip.wf(),
        ensures
            final(self).wf(),
            final(self).clip_seq() == old(self).clip_seq().push(clip),
            final(self).active() == old(self).active(),
    {
        self.clips.push(clip);
        assert forall|i: int| 0 <= i < self.clips@.len() implies (#[trigger] self.clips@[i]).wf() by {
            if i < old(self).clips@.len() {
                assert(self.clips@[i] == old(self).clips@[i]);
            }
        }
    }

    /// The active clip.
    pub fn active_clip(&self) -> (c: &AnimationClip)
        requires
            self.wf(),
        ensures
            *c == self.clip_seq()[self.active()],
    {
        &self.clips[self.active_clip_idx]
    }

    /// The active clip, to change in place.
    pub fn active_clip_mut(&mut self) -> (c: &mut AnimationClip)
        requires
            old(self).wf(),
        ensures
            *c == old(self).clip_seq()[old(self).active()],
            final(self).clip_seq() == old(self).clip_seq().update(old(self).active(), *final(c)),
            final(self).active() == old(self).active(),
    {
        &mut self.clips[self.active_clip_idx]
    }

    /// All clips.
    pub fn clips(&self) -> (r: &[AnimationClip])
        ensures
            r@ == self.clip_seq(),
    {
        self.clips.as_slice()
    }

    /// Make the first clip with the given name active and stop it; fails
    /// (returns false, nothing changed) when no clip has that name.
    pub fn select_clip(&mut self, name: &str) -> (ok: bool)
        requires
            old(self).wf(),
        ensures
            final(self).wf(),
            ok == (exists|i: int| 0 <= i < old(self).clip_seq().len() && (#[trigger] old(self).clip_seq()[i]).name_seq() == name@),
            ok ==> {
                let i = final(self).active();
                &&& 0 <= i < old(self).clip_seq().len()
                &&& old(self).clip_seq()[i].name_seq() == name@
                &&& forall|j: int| 0 <= j < i ==> (#[trigger] old(self).clip_seq()[j]).name_seq() != name@
                &&& stopped_copy(final(self).clip_seq()[i], old(self).clip_seq()[i])
                &&& final(self).clip_seq() == old(self).clip_seq().update(i, final(self).clip_seq()[i])
            },
            !ok ==> final(self).clip_seq() == old(self).clip_seq() && final(self).active() == old(self).active(),
    {
        let mut i: usize = 0;
        while i < self.clips.len()
            invariant
                i <= self.clips@.len(),
                self.wf(),
                self.clips@ == old(self).clips@,
                self.active_clip_idx == old(self).active_clip_idx,
                forall|j: int| 0 <= j < i ==> (#[trigger] self.clips@[j]).name_seq() != name@,
            decreases self.clips@.len() - i,
        {
            if str_equal(self.clips[i].name.as_str(), name) {
                assert(old(self).clip_seq()[i as int].name_seq() == name@);
                self.active_clip_idx = i;
                self.stop_clip(i);
                return true;
            }
            i = i + 1;
        }
        false
    }

    /// Make the clip at `idx` active and stop it; fails (returns false,
    /// nothing changed) when there is no such clip.
    pub fn select_clip_by_idx(&mut self, idx: usize) -> (ok: bool)
        requires
            old(self).wf(),
        ensures
            final(self).wf(),
            ok == (idx < old(self).clip_seq().len()),
            ok ==> final(self).active() == idx,
            ok ==> stopped_copy(final(self).clip_seq()[idx as int], old(self).clip_seq()[idx as int]),
            ok ==> final(self).clip_seq() == old(self).clip_seq().update(idx as int, final(self).clip_seq()[idx as int]),
            !ok ==> final(self).clip_seq() == old(self).clip_seq() && final(self).active() == old(self).active(),
    {
        if idx < self.clips.len() {
            self.active_clip_idx = idx;
            self.stop_clip(idx);
            true
        } else {
            false
        }
    }

    /// Stop the clip at `i`.
    fn stop_clip(&mut self, i: usize)
        requires
            old(self).wf(),
            i < old(self).clip_seq().len(),
        ensures
            final(self).wf(),
            stopped_copy(final(self).clip_seq()[i as int], old(self).clip_seq()[i as int]),
            final(self).clip_seq() == old(self).clip_seq().update(i as int, final(self).clip_seq()[i as int]),
            final(self).active() == old(self).active(),
    {
        let ghost before = self.clips@;
        self.clips[i].stop();
        assert forall|k: int| 0 <= k < self.clips@.len() implies (#[trigger] self.clips@[k]).wf() by {
            if k != i {
                assert(self.clips@[k] == before[k]);
            }
        }
    }
}

/// `c` is `old` stopped: first frame, no time spent, everything else kept.
pub open spec fn stopped_copy(c: AnimationClip, old: AnimationClip) -> bool {
    &&& c.wf()
    &&& c.state() == PlaybackState::Stopped
    &&& c.current() == 0
    &&& c.elapsed() == ZERO
    &&& c.name_seq() == old.name_seq()
    &&& c.frame_seq() == old.frame_seq()
    &&& c.loops() == old.loops()
    &&& c.speed() == old.speed()
}

} // verus!
