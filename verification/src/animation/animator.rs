//! The playback cursor: from a running clock to the pair of keyframes around it.

use crate::animation::traits::{target_slots, Animation, AnimationTarget, Targets};
use crate::math::{time_loop, wrapped};
use crate::pose::{
    arc_start, pose_interp, quat_product, rotation_interp, slerp_gives, Factor, Pose,
};
use nalgebra_glm::Quat;
use vstd::prelude::*;

verus! {

/// A keyframe as the cursor reports it: its index and its sample time.
pub type Frame = (usize, i64);

/// A time axis that a clip can have: at least one sample, the first at time
/// zero, each later than the one before.
pub open spec fn valid_time_axis(times: Seq<i64>) -> bool {
    &&& times.len() > 0
    &&& times[0] == 0
    &&& forall|i: int, j: int| 0 <= i < j < times.len() ==> times[i] < times[j]
}

/// The time of the last sample.
pub open spec fn last_time(times: Seq<i64>) -> i64 {
    times[times.len() - 1]
}

/// Sample `i` and its successor lie around `t`.
pub open spec fn in_segment(times: Seq<i64>, i: int, t: int) -> bool {
    0 <= i && i + 1 < times.len() && times[i] <= t < times[i + 1]
}

/// The index of the sample at or before `t`, for `t` from the first sample up
/// to, but not at, the last.
pub open spec fn segment_at(times: Seq<i64>, t: int) -> int {
    choose|i: int| in_segment(times, i, t)
}

/// The pair of sample `i` and its successor.
pub open spec fn segment_frames(times: Seq<i64>, i: int) -> (Frame, Frame) {
    ((i as usize, times[i]), ((i + 1) as usize, times[i + 1]))
}

/// Both ends on the first sample: the clock has not reached the clip yet.
pub open spec fn before_start() -> (Frame, Frame) {
    ((0usize, 0i64), (0usize, 0i64))
}

/// Both ends on the last sample: the clock has run off the clip's end.
pub open spec fn at_end(times: Seq<i64>) -> (Frame, Frame) {
    let last = ((times.len() - 1) as usize, last_time(times));
    (last, last)
}

/// The last sample heading for the first: the clock is in the gap that a loop
/// leaves between the end of the clip and its restart.
pub open spec fn in_gap(times: Seq<i64>) -> (Frame, Frame) {
    (((times.len() - 1) as usize, last_time(times)), (0usize, 0i64))
}

/// The time within one period of a loop that pauses `gap` ticks after the
/// last sample: a whole number of periods away from `t`, from zero up to but
/// not at the period.
pub open spec fn looped_time(times: Seq<i64>, gap: i64, t: int) -> int {
    let period = last_time(times) + gap;
    let w = wrapped(t, 0, period);
    if w == period {
        0
    } else {
        w
    }
}

/// The bracket that belongs to time `t`; when looping, `t` is taken as
/// already wrapped into one period.
pub open spec fn bracket_at(times: Seq<i64>, t: int, looping: bool) -> (Frame, Frame) {
    if looping {
        if t >= last_time(times) {
            in_gap(times)
        } else {
            segment_frames(times, segment_at(times, t))
        }
    } else if t >= last_time(times) {
        at_end(times)
    } else if t <= 0 {
        before_start()
    } else {
        segment_frames(times, segment_at(times, t))
    }
}

/// On a valid axis every time from the first sample up to the last lies in
/// exactly one segment.
pub proof fn lemma_segment_unique(times: Seq<i64>, t: int, i: int)
    requires
        valid_time_axis(times),
        in_segment(times, i, t),
    ensures
        segment_at(times, t) == i,
{
    let j = segment_at(times, t);
    assert(in_segment(times, j, t));
    if j < i {
        assert(times[j + 1] <= times[i]);
    } else if i < j {
        assert(times[i + 1] <= times[j]);
    }
}

/// What a cursor holds, as plain values.
pub struct Playback {
    pub time: i64,
    pub loop_time: Option<i64>,
    pub forward: bool,
    pub current: Frame,
    pub next: Frame,
}

impl Playback {
    /// The clock lies within the bracket held, so nothing needs recomputing.
    pub open spec fn holds_time(self) -> bool {
        self.current.1 <= self.time < self.next.1
    }

    /// A bracket with room in it is a pair of neighbouring samples of `times`.
    pub open spec fn in_step(self, times: Seq<i64>) -> bool {
        self.current.1 < self.next.1 ==> {
            &&& self.next.0 == self.current.0 + 1
            &&& self.next.0 < times.len()
            &&& self.current.1 == times[self.current.0 as int]
            &&& self.next.1 == times[self.next.0 as int]
        }
    }

    /// Whether `times` and the loop setting can be played: a loop needs a
    /// period longer than nothing, and one that the clock can count.
    pub open spec fn playable(self, times: Seq<i64>) -> bool {
        &&& valid_time_axis(times)
        &&& match self.loop_time {
            Some(gap) => 0 < last_time(times) + gap <= i64::MAX,
            None => true,
        }
    }

    /// The clock can be moved by `dt` in the direction of play and still be counted.
    pub open spec fn can_advance(self, dt: i64) -> bool {
        if self.forward {
            i64::MIN <= self.time + dt <= i64::MAX
        } else {
            i64::MIN <= self.time - dt <= i64::MAX
        }
    }

    /// The clock moved by `dt` in the direction of play.
    pub open spec fn advanced(self, dt: i64) -> Playback {
        Playback {
            time: if self.forward {
                (self.time + dt) as i64
            } else {
                (self.time - dt) as i64
            },
            ..self
        }
    }

    /// The cursor after its bracket has been brought up to its clock.
    ///
    /// A bracket that still holds the clock stays, and the clock with it.
    /// Otherwise a looping cursor first wraps its clock into one period, and
    /// the bracket becomes the one that belongs to the clock.
    pub open spec fn updated(self, times: Seq<i64>) -> Playback {
        if self.holds_time() {
            self
        } else {
            let t = match self.loop_time {
                Some(gap) => looped_time(times, gap, self.time as int) as i64,
                None => self.time,
            };
            let bracket = bracket_at(times, t as int, self.loop_time is Some);
            Playback { time: t, current: bracket.0, next: bracket.1, ..self }
        }
    }
}

/// A playback cursor over the time axis of a clip.
#[derive(Debug, Clone, Copy)]
pub struct Animator {
    pub time: i64,
    loop_time: Option<i64>,
    forward_time: bool,
    current_frame: Frame,
    next_frame: Frame,
}

impl View for Animator {
    type V = Playback;

    closed spec fn view(&self) -> Playback {
        Playback {
            time: self.time,
            loop_time: self.loop_time,
            forward: self.forward_time,
            current: self.current_frame,
            next: self.next_frame,
        }
    }
}

/// Whether the times can be the time axis of a clip.
pub fn is_time_axis(times: &[i64]) -> (r: bool)
    ensures
        r == valid_time_axis(times@),
{
    if times.len() == 0 || times[0] != 0 {
        return false;
    }
    let mut i: usize = 1;
    while i < times.len()
        invariant
            1 <= i <= times@.len(),
            forall|a: int, b: int| 0 <= a < b < i ==> times@[a] < times@[b],
        decreases times@.len() - i,
    {
        if times[i - 1] >= times[i] {
            return false;
        }
        proof {
            assert forall|a: int, b: int| 0 <= a < b < i + 1 implies times@[a] < times@[b] by {
                if b == i && a < i - 1 {
                    assert(times@[a] < times@[i - 1]);
                }
            }
        }
        i += 1;
    }
    true
}

/// The sample at or before `t` among `times[lo..hi]`, by halving.
fn search(times: &[i64], lo: usize, hi: usize, t: i64) -> (i: usize)
    requires
        valid_time_axis(times@),
        lo < hi <= times@.len(),
        times@[lo as int] <= t,
        t < last_time(times@),
        hi < times@.len() ==> t < times@[hi as int],
    ensures
        in_segment(times@, i as int, t as int),
{
    let mut low: usize = lo;
    let mut high: usize = hi;
    while high - low > 1
        invariant
            valid_time_axis(times@),
            lo <= low < high <= hi <= times@.len(),
            times@[low as int] <= t,
            t < last_time(times@),
            high < times@.len() ==> t < times@[high as int],
        decreases high - low,
    {
        let mid: usize = low + (high - low) / 2;
        if times[mid] <= t {
            low = mid;
        } else {
            high = mid;
        }
    }
    low
}

/// The sample at or before `t`, stepping up from sample `from`.
fn walk_up(times: &[i64], from: usize, t: i64) -> (i: usize)
    requires
        valid_time_axis(times@),
        from < times@.len(),
        times@[from as int] <= t < last_time(times@),
    ensures
        in_segment(times@, i as int, t as int),
{
    let len = times.len();
    let mut i: usize = from;
    assert(from + 1 < len);
    while times[i + 1] <= t
        invariant
            valid_time_axis(times@),
            len == times@.len(),
            i + 1 < len,
            times@[i as int] <= t < last_time(times@),
        decreases times@.len() - i,
    {
        i += 1;
    }
    i
}

/// The sample at or before `t`, stepping down from sample `from`.
fn walk_down(times: &[i64], from: usize, t: i64) -> (i: usize)
    requires
        valid_time_axis(times@),
        from < times@.len(),
        0 <= t < times@[from as int],
    ensures
        in_segment(times@, i as int, t as int),
{
    let mut i: usize = from - 1;
    while t < times[i]
        invariant
            valid_time_axis(times@),
            i + 1 < times@.len(),
            0 <= t < times@[i + 1],
        decreases i,
    {
        i -= 1;
    }
    i
}

impl Animator {
    /// A cursor at time zero, playing forward, once.
    pub fn new() -> (r: Animator)
        ensures
            r@ == (Playback {
                time: 0,
                loop_time: None,
                forward: true,
                current: (0usize, 0i64),
                next: (0usize, 0i64),
            }),
    {
        Animator {
            time: 0,
            loop_time: None,
            forward_time: true,
            current_frame: (0, 0),
            next_frame: (0, 0),
        }
    }

    /// Makes the cursor loop, pausing `time` ticks after the last sample
    /// before it starts over.
    pub fn set_loop_time(&mut self, time: i64)
        ensures
            final(self)@ == (Playback { loop_time: Some(time), ..old(self)@ }),
    {
        self.loop_time = Some(time);
    }

    /// Makes the cursor play once and hold at the ends.
    pub fn remove_loop(&mut self)
        ensures
            final(self)@ == (Playback { loop_time: None, ..old(self)@ }),
    {
        self.loop_time = None;
    }

    pub fn set_time_direction(&mut self, forwards: bool)
        ensures
            final(self)@ == (Playback { forward: forwards, ..old(self)@ }),
    {
        self.forward_time = forwards;
    }

    pub fn reverse(&mut self)
        ensures
            final(self)@ == (Playback { forward: !old(self)@.forward, ..old(self)@ }),
    {
        self.forward_time = !self.forward_time;
    }

    /// Whether the clock can be moved by `time` and still be counted.
    pub fn can_add_time(&self, time: i64) -> (r: bool)
        ensures
            r == self@.can_advance(time),
    {
        if self.forward_time {
            self.time.checked_add(time).is_some()
        } else {
            self.time.checked_sub(time).is_some()
        }
    }

    /// Whether the cursor can be brought up to its clock over these sample
    /// times: see `Playback::playable`.
    pub fn can_play(&self, sample_times: &[i64]) -> (r: bool)
        ensures
            r == self@.playable(sample_times@),
    {
        if !is_time_axis(sample_times) {
            return false;
        }
        match self.loop_time {
            Some(gap) => match sample_times[sample_times.len() - 1].checked_add(gap) {
                Some(period) => period > 0,
                None => {
                    assert(sample_times@[sample_times@.len() - 1] >= sample_times@[0]);
                    false
                },
            },
            None => true,
        }
    }

    /// Moves the clock by `time` in the direction of play. The bracket is
    /// left as it was until the next `update_frames`.
    pub fn add_time(&mut self, time: i64)
        requires
            old(self)@.can_advance(time),
        ensures
            final(self)@ == old(self)@.advanced(time),
    {
        if self.forward_time {
            self.time += time;
        } else {
            self.time -= time;
        }
    }

    pub fn current_frame(&self) -> (r: Frame)
        ensures
            r == self@.current,
    {
        self.current_frame
    }

    pub fn next_frame(&self) -> (r: Frame)
        ensures
            r == self@.next,
    {
        self.next_frame
    }

    /// The segment around the clock, for a cursor playing forward: halving
    /// below the bracket when the clock fell behind it, stepping up from it
    /// otherwise.
    fn find_forward(&self, times: &[i64]) -> (i: usize)
        requires
            valid_time_axis(times@),
            0 <= self.time < last_time(times@),
        ensures
            in_segment(times@, i as int, self.time as int),
    {
        let len = times.len();
        let current = self.current_frame.0;
        let next = self.next_frame.0;
        if 0 < current && current < len && times[current] == self.current_frame.1 && self.time
            < times[current] {
            search(times, 0, current, self.time)
        } else if next < len && times[next] == self.next_frame.1 && times[next] <= self.time {
            walk_up(times, next, self.time)
        } else {
            search(times, 0, len, self.time)
        }
    }

    /// The segment around the clock, for a cursor playing backward: halving
    /// above the bracket when the clock is ahead of it, stepping down from it
    /// otherwise.
    fn find_backward(&self, times: &[i64]) -> (i: usize)
        requires
            valid_time_axis(times@),
            0 <= self.time < last_time(times@),
        ensures
            in_segment(times@, i as int, self.time as int),
    {
        let len = times.len();
        let current = self.current_frame.0;
        let next = self.next_frame.0;
        if next < len && times[next] == self.next_frame.1 && times[next] <= self.time {
            search(times, next, len, self.time)
        } else if current < len && times[current] == self.current_frame.1 && self.time
            < times[current] {
            walk_down(times, current, self.time)
        } else {
            search(times, 0, len, self.time)
        }
    }

    /// Brings the bracket up to the clock, over the sample times of the clip
    /// being played.
    ///
    /// A bracket that still holds the clock is kept. Otherwise a looping
    /// cursor wraps its clock into one period first; a cursor that plays once
    /// holds the first frame at or before time zero and the last frame at or
    /// after the last sample; a looping one holds the last frame, heading for
    /// the first, while in the gap after the last sample. At all other times
    /// the bracket becomes the two samples around the clock.
    pub fn update_frames(&mut self, sample_times: &[i64])
        requires
            old(self)@.playable(sample_times@),
        ensures
            final(self)@ == old(self)@.updated(sample_times@),
            !old(self)@.holds_time() ==> final(self)@.in_step(sample_times@),
            old(self)@.in_step(sample_times@) ==> final(self)@.in_step(sample_times@),
            old(self)@.loop_time is None && 0 <= old(self)@.time <= last_time(sample_times@) ==> {
                ||| final(self)@.current.1 <= final(self)@.time < final(self)@.next.1
                ||| final(self)@.current == final(self)@.next
            },
    {
        let len = sample_times.len();
        if self.time >= self.current_frame.1 && self.time < self.next_frame.1 {
            return ;
        }
        let last_ind = len - 1;
        let last_time = sample_times[last_ind];
        match self.loop_time {
            Some(loop_time) => {
                let duration = loop_time + last_time;
                let wrapped_time = time_loop(self.time, 0, duration);
                self.time = if wrapped_time == duration {
                    0
                } else {
                    wrapped_time
                };
                if self.time >= last_time {
                    self.current_frame = (last_ind, last_time);
                    self.next_frame = (0, 0);
                    return ;
                }
            },
            None => {
                if self.time >= last_time {
                    self.current_frame = (last_ind, last_time);
                    self.next_frame = (last_ind, last_time);
                    return ;
                }
                if self.time <= 0 {
                    self.current_frame = (0, 0);
                    self.next_frame = (0, 0);
                    return ;
                }
            },
        }
        let index = if self.forward_time {
            self.find_forward(sample_times)
        } else {
            self.find_backward(sample_times)
        };
        proof {
            lemma_segment_unique(sample_times@, self.time as int, index as int);
        }
        self.current_frame = (index, sample_times[index]);
        self.next_frame = (index + 1, sample_times[index + 1]);
    }
}

/// Looping is periodic: a clock that stands one whole period later, the
/// length of the clip and its gap together, is wrapped to the same time and
/// given the same bracket.
pub proof fn lemma_looping_is_periodic(cursor: Playback, times: Seq<i64>, gap: i64, t: i64)
    requires
        cursor.loop_time == Some(gap),
        cursor.playable(times),
        cursor.in_step(times),
        0 <= gap,
        0 <= t < last_time(times) + gap,
        t + last_time(times) + gap <= i64::MAX,
    ensures
        (Playback { time: (t + last_time(times) + gap) as i64, ..cursor }).updated(times) == (Playback {
            time: t,
            ..cursor
        }).updated(times),
{
    let period = last_time(times) + gap;
    let early = Playback { time: t, ..cursor };
    let late = Playback { time: (t + period) as i64, ..cursor };
    assert(!late.holds_time()) by {
        if cursor.current.1 < cursor.next.1 {
            assert(times[cursor.next.0 as int] <= times[times.len() - 1]);
        }
    }
    assert(looped_time(times, gap, t + period) == t) by {
        let ticks = t as int;
        if ticks > 0 {
            assert(ticks % period == ticks) by (nonlinear_arith)
                requires
                    0 <= ticks < period,
            ;
        }
    }
    if early.holds_time() {
        lemma_segment_unique(times, t as int, cursor.current.0 as int);
    } else {
        assert(looped_time(times, gap, t as int) == t);
    }
}

/// Playing forward from the start into a segment, then turning round and
/// playing back by as much, restores the bracket and the clock of the start.
///
/// The time played lies strictly inside a segment of the clip. For a cursor
/// that plays once, the segment is not the first one: within the first
/// segment its bracket still holds time zero on the way back and is kept,
/// where the start held the first frame alone.
pub proof fn lemma_there_and_back(start: Playback, times: Seq<i64>, i: int, t: i64)
    requires
        start.playable(times),
        start.time == 0,
        start.forward,
        (start.current, start.next) == before_start(),
        start.loop_time matches Some(gap) ==> 0 <= gap,
        0 <= i && i + 1 < times.len(),
        times[i] < t < times[i + 1],
        start.loop_time is Some || 0 < i,
    ensures
        ({
            let begun = start.updated(times);
            let there = begun.advanced(t).updated(times);
            let back = (Playback { forward: false, ..there }).advanced(t).updated(times);
            &&& (there.current, there.next) == segment_frames(times, i)
            &&& back.time == begun.time
            &&& back.current == begun.current
            &&& back.next == begun.next
        }),
{
    let begun = start.updated(times);
    let there = begun.advanced(t).updated(times);
    let turned = (Playback { forward: false, ..there }).advanced(t);
    assert(times[0] <= times[i]);
    assert(times[i + 1] <= times[times.len() - 1]);
    assert(in_segment(times, i, t as int));
    lemma_segment_unique(times, t as int, i);
    assert(in_segment(times, 0, 0));
    lemma_segment_unique(times, 0, 0);
    assert(begun.time == 0);
    assert(there.time == t);
    assert((there.current, there.next) == segment_frames(times, i));
    assert(turned.time == 0);
}

/// The cursor points at a frame that the clip does not have.
#[derive(Debug, Clone, Copy, PartialEq, Eq, Structural)]
pub struct MissingFrameError {
    pub frame: usize,
}

/// `String::push_str`: the text with `more` behind it.
#[verifier::external_body]
pub(crate) fn append_text(text: &mut String, more: &str)
    ensures
        final(text)@ == old(text)@ + more@,
{
    text.push_str(more);
}

impl MissingFrameError {
    pub fn new(frame: usize) -> (r: MissingFrameError)
        ensures
            r.frame == frame,
    {
        MissingFrameError { frame }
    }

    /// The error in words, with the number of the frame, as `to_string`
    /// writes it, in them.
    pub fn message(&self) -> (r: String)
        ensures
            exists|number: String| #[trigger]
                vstd::string::to_string_from_display_ensures::<usize>(&self.frame, number) && r@
                    == "Animation missing "@ + number@ + " frame"@,
    {
        let mut text = "Animation missing ".to_string();
        let number = self.frame.to_string();
        append_text(&mut text, number.as_str());
        append_text(&mut text, " frame");
        text
    }
}

/// A rule for the pose that a target gets: whether, from the two sampled
/// poses, the weight and the target's pose before, it may be the pose after.
pub type BlendRule = spec_fn(Pose, Pose, Factor, Pose, Pose) -> bool;

/// The target gets the blend of the two sampled poses.
pub open spec fn writes_pose() -> BlendRule {
    |a: Pose, b: Pose, f: Factor, before: Pose, after: Pose| after.is_interp_of(a, b, f)
}

/// The target gets the blend of the two sampled poses composed onto its own
/// pose: its own pose is done first.
pub open spec fn adds_pose() -> BlendRule {
    |a: Pose, b: Pose, f: Factor, before: Pose, after: Pose|
        exists|blend: Pose| #[trigger] blend.is_interp_of(a, b, f) && after == blend.composed(before)
}

/// The target gets what the blend of the two sampled rotations along the
/// shorter arc gave, at the weight as it is, and keeps the rest of its pose.
pub open spec fn writes_rotation() -> BlendRule {
    |a: Pose, b: Pose, f: Factor, before: Pose, after: Pose|
        {
            &&& after.translation == before.translation
            &&& after.scale == before.scale
            &&& slerp_gives(
                arc_start(a.rotation, b.rotation),
                b.rotation,
                f.scalar(),
                after.rotation,
            )
        }
}

/// The target gets what the blend of the two sampled rotations along the
/// shorter arc gave, at the weight as it is, put in front of its own
/// rotation, and keeps the rest of its pose.
pub open spec fn adds_rotation() -> BlendRule {
    |a: Pose, b: Pose, f: Factor, before: Pose, after: Pose|
        exists|rotation: Quat| #[trigger]
            slerp_gives(arc_start(a.rotation, b.rotation), b.rotation, f.scalar(), rotation)
                && after == (Pose { rotation: quat_product(rotation, before.rotation), ..before })
}

/// One slot played: target `slot` got a pose that the rule allows, the other
/// targets are as they were.
pub open spec fn slot_played<T: AnimationTarget>(
    before: Seq<T>,
    after: Seq<T>,
    slot: usize,
    a: Pose,
    b: Pose,
    f: Factor,
    rule: BlendRule,
) -> bool {
    &&& slot < before.len()
    &&& after == before.update(slot as int, after[slot as int])
    &&& rule(a, b, f, before[slot as int].pose(), after[slot as int].pose())
}

/// The slots played one after the other, each with its own pair of sampled
/// poses: `stages` holds the targets before the first slot and after each.
pub open spec fn played_through<T: AnimationTarget>(
    stages: Seq<Seq<T>>,
    slots: Seq<usize>,
    from: Seq<Pose>,
    to: Seq<Pose>,
    f: Factor,
    rule: BlendRule,
) -> bool {
    &&& stages.len() == slots.len() + 1
    &&& forall|i: int|
        0 <= i < slots.len() ==> slot_played(
            #[trigger] stages[i],
            stages[i + 1],
            slots[i],
            from[i],
            to[i],
            f,
            rule,
        )
}

/// `after` is what playing the slots onto `before` can give.
pub open spec fn played<T: AnimationTarget>(
    before: Seq<T>,
    after: Seq<T>,
    slots: Seq<usize>,
    from: Seq<Pose>,
    to: Seq<Pose>,
    f: Factor,
    rule: BlendRule,
) -> bool {
    exists|stages: Seq<Seq<T>>| #[trigger]
        played_through(stages, slots, from, to, f, rule) && stages[0] == before
            && stages[slots.len() as int] == after
}

/// The slots can be played onto `count` targets from frames of these sizes:
/// each slot has a pose in both frames and a target to drive.
pub open spec fn slots_fit(slots: Seq<usize>, from: nat, to: nat, count: nat) -> bool {
    &&& slots.len() <= from
    &&& slots.len() <= to
    &&& forall|i: int| 0 <= i < slots.len() ==> slots[i] < count
}

impl Playback {
    /// How far the clock has come from the current frame to the next, given
    /// the times that the clip has for the two: the time passed over the
    /// length of the segment. On the last frame of a clip of `frames` frames
    /// it is the time passed over the gap of the loop, or zero for a cursor
    /// that plays once.
    pub open spec fn factor(self, frames: nat, current_time: i64, next_time: i64) -> Factor {
        if self.current.0 == frames - 1 {
            match self.loop_time {
                Some(gap) => Factor { num: (self.time - current_time) as i128, den: gap as i128 },
                None => Factor::none(),
            }
        } else {
            Factor {
                num: (self.time - current_time) as i128,
                den: (next_time - current_time) as i128,
            }
        }
    }

    /// The two frames of the bracket in `animation` fit the targets: see
    /// `slots_fit`. Nothing is asked where the clip is empty or lacks one of
    /// the two frames.
    pub open spec fn fits<A: Animation>(self, animation: A, count: nat) -> bool {
        animation.times().len() > 0 ==> match (
            animation.frame(self.current.0 as int),
            animation.frame(self.next.0 as int),
        ) {
            (Some(from), Some(to)) => slots_fit(
                target_slots(animation.targets(), count),
                from.0.len(),
                to.0.len(),
                count,
            ),
            _ => true,
        }
    }

    /// What playing the bracket of `animation` onto targets does. An empty
    /// clip changes nothing. A bracket that points at a frame that the clip
    /// lacks is an error that names the frame, the current one first, and
    /// changes nothing. Otherwise every slot of the clip is played, in order,
    /// from the poses of the current frame to those of the next.
    pub open spec fn plays<A: Animation, T: AnimationTarget>(
        self,
        animation: A,
        before: Seq<T>,
        after: Seq<T>,
        rule: BlendRule,
        result: Result<(), MissingFrameError>,
    ) -> bool {
        if animation.times().len() == 0 {
            result is Ok && after == before
        } else {
            match animation.frame(self.current.0 as int) {
                None => result == Err::<(), MissingFrameError>(
                    MissingFrameError { frame: self.current.0 },
                ) && after == before,
                Some(from) => match animation.frame(self.next.0 as int) {
                    None => result == Err::<(), MissingFrameError>(
                        MissingFrameError { frame: self.next.0 },
                    ) && after == before,
                    Some(to) => result is Ok && played(
                        before,
                        after,
                        target_slots(animation.targets(), before.len()),
                        from.0,
                        to.0,
                        self.factor(animation.times().len(), from.1, to.1),
                        rule,
                    ),
                },
            }
        }
    }
}

/// A weaker rule allows what a stronger one allows.
pub proof fn lemma_played_by_weaker_rule<T: AnimationTarget>(
    before: Seq<T>,
    after: Seq<T>,
    slots: Seq<usize>,
    from: Seq<Pose>,
    to: Seq<Pose>,
    f: Factor,
    rule: BlendRule,
    weaker: BlendRule,
)
    requires
        played(before, after, slots, from, to, f, rule),
        forall|a: Pose, b: Pose, g: Factor, x: Pose, y: Pose| #[trigger]
            rule(a, b, g, x, y) ==> weaker(a, b, g, x, y),
    ensures
        played(before, after, slots, from, to, f, weaker),
{
    let stages = choose|stages: Seq<Seq<T>>| #[trigger]
        played_through(stages, slots, from, to, f, rule) && stages[0] == before
            && stages[slots.len() as int] == after;
    assert(played_through(stages, slots, from, to, f, weaker));
}

impl Animator {
    /// The weight of the next frame at the clock: see `Playback::factor`.
    fn interpolation_factor(&self, frames: usize, current_time: i64, next_time: i64) -> (r: Factor)
        requires
            frames > 0,
        ensures
            r == self@.factor(frames as nat, current_time, next_time),
    {
        if self.current_frame.0 == frames - 1 {
            match self.loop_time {
                Some(duration) => Factor::new(
                    self.time as i128 - current_time as i128,
                    duration as i128,
                ),
                None => Factor::new(0, 1),
            }
        } else {
            Factor::new(
                self.time as i128 - current_time as i128,
                next_time as i128 - current_time as i128,
            )
        }
    }

    /// Whether the bracket fits `count` targets in `animation`: see
    /// `Playback::fits`.
    pub fn fits<A: Animation>(&self, animation: &A, count: usize) -> (r: bool)
        ensures
            r == self@.fits(*animation, count as nat),
    {
        if animation.frames() == 0 {
            return true;
        }
        let from = match animation.get_frame(self.current_frame.0) {
            Some(frame) => frame.0.len(),
            None => {
                return true;
            },
        };
        let to = match animation.get_frame(self.next_frame.0) {
            Some(frame) => frame.0.len(),
            None => {
                return true;
            },
        };
        match animation.get_targets() {
            Targets::Specified(listed) => {
                if listed.len() > from || listed.len() > to {
                    return false;
                }
                let mut i: usize = 0;
                while i < listed.len()
                    invariant
                        animation.times().len() > 0,
                        animation.frame(self@.current.0 as int) matches Some(frame)
                            && frame.0.len() == from,
                        animation.frame(self@.next.0 as int) matches Some(frame) && frame.0.len()
                            == to,
                        animation.targets() == Some(listed@),
                        listed@.len() <= from,
                        listed@.len() <= to,
                        i <= listed@.len(),
                        forall|k: int| 0 <= k < i ==> listed@[k] < count,
                    decreases listed@.len() - i,
                {
                    if listed[i] >= count {
                        assert(target_slots(animation.targets(), count as nat)[i as int] >= count);
                        return false;
                    }
                    i += 1;
                }
                true
            },
            Targets::InOrder => count <= from && count <= to,
        }
    }

    /// Plays the bracket of `animation` onto `targets`: for every pose slot
    /// of the clip, the target that it drives gets the pose that `function`
    /// makes of the two sampled poses, the weight between them and the pose
    /// that the target has.
    pub fn manipulate_pose<A, T, F>(&self, animation: &A, targets: &mut Vec<T>, function: F) -> (r:
        Result<(), MissingFrameError>)
        where
            A: Animation,
            T: AnimationTarget,
            F: Fn(Pose, Pose, Factor, Pose) -> Pose,

        requires
            forall|a: Pose, b: Pose, f: Factor, current: Pose|
                function.requires((a, b, f, current)),
            self@.fits(*animation, old(targets)@.len()),
        ensures
            final(targets)@.len() == old(targets)@.len(),
            self@.plays(
                *animation,
                old(targets)@,
                final(targets)@,
                |a: Pose, b: Pose, f: Factor, before: Pose, after: Pose|
                    function.ensures((a, b, f, before), after),
                r,
            ),
    {
        let ghost rule: BlendRule = |a: Pose, b: Pose, f: Factor, before: Pose, after: Pose|
            function.ensures((a, b, f, before), after);
        let frames = animation.frames();
        if frames == 0 {
            return Ok(());
        }
        let (cposes, ctime) = match animation.get_frame(self.current_frame.0) {
            Some(frame) => frame,
            None => {
                return Err(MissingFrameError::new(self.current_frame.0));
            },
        };
        let (nposes, ntime) = match animation.get_frame(self.next_frame.0) {
            Some(frame) => frame,
            None => {
                return Err(MissingFrameError::new(self.next_frame.0));
            },
        };
        let interpolate = self.interpolation_factor(frames, ctime, ntime);
        let ghost slots = target_slots(animation.targets(), targets@.len());
        let ghost mut stages: Seq<Seq<T>> = seq![targets@];
        let count = targets.len();
        match animation.get_targets() {
            Targets::Specified(array) => {
                let mut i: usize = 0;
                while i < array.len()
                    invariant
                        slots == array@,
                        slots_fit(slots, cposes@.len(), nposes@.len(), count as nat),
                        count == targets@.len(),
                        i <= array@.len(),
                        forall|a: Pose, b: Pose, f: Factor, current: Pose|
                            function.requires((a, b, f, current)),
                        rule == (|a: Pose, b: Pose, f: Factor, before: Pose, after: Pose|
                            function.ensures((a, b, f, before), after)),
                        played_through(stages, slots.take(i as int), cposes@, nposes@, interpolate, rule),
                        stages[0] == old(targets)@,
                        stages[i as int] == targets@,
                    decreases array@.len() - i,
                {
                    let slot = array[i];
                    let ghost before = targets@;
                    let current = targets[slot].get_pose();
                    let pose = function(cposes[i], nposes[i], interpolate, current);
                    targets[slot].set_pose(pose);
                    proof {
                        let earlier = stages;
                        stages = stages.push(targets@);
                        assert(targets@ =~= before.update(slot as int, targets@[slot as int]));
                        assert(slots.take(i + 1) =~= slots.take(i as int).push(slot));
                        assert forall|k: int| 0 <= k < i + 1 implies slot_played(
                            #[trigger] stages[k],
                            stages[k + 1],
                            slots.take(i + 1)[k],
                            cposes@[k],
                            nposes@[k],
                            interpolate,
                            rule,
                        ) by {
                            if k < i {
                                assert(slot_played(
                                    earlier[k],
                                    earlier[k + 1],
                                    slots.take(i as int)[k],
                                    cposes@[k],
                                    nposes@[k],
                                    interpolate,
                                    rule,
                                ));
                            }
                        }
                    }
                    i += 1;
                }
                assert(slots.take(i as int) =~= slots);
            },
            Targets::InOrder => {
                let mut i: usize = 0;
                while i < count
                    invariant
                        slots == Seq::new(count as nat, |k: int| k as usize),
                        slots_fit(slots, cposes@.len(), nposes@.len(), count as nat),
                        count == targets@.len(),
                        i <= count,
                        forall|a: Pose, b: Pose, f: Factor, current: Pose|
                            function.requires((a, b, f, current)),
                        rule == (|a: Pose, b: Pose, f: Factor, before: Pose, after: Pose|
                            function.ensures((a, b, f, before), after)),
                        played_through(stages, slots.take(i as int), cposes@, nposes@, interpolate, rule),
                        stages[0] == old(targets)@,
                        stages[i as int] == targets@,
                    decreases count - i,
                {
                    let ghost before = targets@;
                    let current = targets[i].get_pose();
                    let pose = function(cposes[i], nposes[i], interpolate, current);
                    targets[i].set_pose(pose);
                    proof {
                        let earlier = stages;
                        stages = stages.push(targets@);
                        assert(targets@ =~= before.update(i as int, targets@[i as int]));
                        assert(slots.take(i + 1) =~= slots.take(i as int).push(i));
                        assert forall|k: int| 0 <= k < i + 1 implies slot_played(
                            #[trigger] stages[k],
                            stages[k + 1],
                            slots.take(i + 1)[k],
                            cposes@[k],
                            nposes@[k],
                            interpolate,
                            rule,
                        ) by {
                            if k < i {
                                assert(slot_played(
                                    earlier[k],
                                    earlier[k + 1],
                                    slots.take(i as int)[k],
                                    cposes@[k],
                                    nposes@[k],
                                    interpolate,
                                    rule,
                                ));
                            }
                        }
                    }
                    i += 1;
                }
                assert(slots.take(i as int) =~= slots);
            },
        }
        assert(played_through(stages, slots, cposes@, nposes@, interpolate, rule));
        Ok(())
    }

    /// Gives every driven target the blend of its two sampled poses.
    pub fn write_pose<A, T>(&self, animation: &A, targets: &mut Vec<T>) -> (r: Result<
        (),
        MissingFrameError,
    >)
        where
            A: Animation,
            T: AnimationTarget,

        requires
            self@.fits(*animation, old(targets)@.len()),
        ensures
            final(targets)@.len() == old(targets)@.len(),
            self@.plays(*animation, old(targets)@, final(targets)@, writes_pose(), r),
    {
        let function = |a: Pose, b: Pose, interpolate: Factor, current: Pose| -> (pose: Pose)
            ensures
                pose.is_interp_of(a, b, interpolate),
            { pose_interp(&a, &b, interpolate) };
        let r = self.manipulate_pose(animation, targets, function);
        proof {
            self.lemma_plays_by_weaker_rule(
                *animation,
                old(targets)@,
                targets@,
                |a: Pose, b: Pose, f: Factor, before: Pose, after: Pose|
                    function.ensures((a, b, f, before), after),
                writes_pose(),
                r,
            );
        }
        r
    }

    /// Puts the blend of its two sampled poses in front of the pose of every
    /// driven target.
    pub fn add_pose<A, T>(&self, animation: &A, targets: &mut Vec<T>) -> (r: Result<
        (),
        MissingFrameError,
    >)
        where
            A: Animation,
            T: AnimationTarget,

        requires
            self@.fits(*animation, old(targets)@.len()),
        ensures
            final(targets)@.len() == old(targets)@.len(),
            self@.plays(*animation, old(targets)@, final(targets)@, adds_pose(), r),
    {
        let function = |a: Pose, b: Pose, interpolate: Factor, current: Pose| -> (pose: Pose)
            ensures
                adds_pose()(a, b, interpolate, current, pose),
            {
                let blend = pose_interp(&a, &b, interpolate);
                blend.compose(&current)
            };
        let r = self.manipulate_pose(animation, targets, function);
        proof {
            self.lemma_plays_by_weaker_rule(
                *animation,
                old(targets)@,
                targets@,
                |a: Pose, b: Pose, f: Factor, before: Pose, after: Pose|
                    function.ensures((a, b, f, before), after),
                adds_pose(),
                r,
            );
        }
        r
    }

    /// Puts the rotation between its two sampled poses, along the shorter
    /// arc, in front of the rotation of every driven target.
    pub fn add_rotations<A, T>(&self, animation: &A, targets: &mut Vec<T>) -> (r: Result<
        (),
        MissingFrameError,
    >)
        where
            A: Animation,
            T: AnimationTarget,

        requires
            self@.fits(*animation, old(targets)@.len()),
        ensures
            final(targets)@.len() == old(targets)@.len(),
            self@.plays(*animation, old(targets)@, final(targets)@, adds_rotation(), r),
    {
        let function = |a: Pose, b: Pose, interpolate: Factor, current: Pose| -> (pose: Pose)
            ensures
                adds_rotation()(a, b, interpolate, current, pose),
            {
                let rotation = rotation_interp(&a.rotation, &b.rotation, interpolate);
                let mut pose = current;
                pose.add_rotation(rotation);
                pose
            };
        let r = self.manipulate_pose(animation, targets, function);
        proof {
            self.lemma_plays_by_weaker_rule(
                *animation,
                old(targets)@,
                targets@,
                |a: Pose, b: Pose, f: Factor, before: Pose, after: Pose|
                    function.ensures((a, b, f, before), after),
                adds_rotation(),
                r,
            );
        }
        r
    }

    /// Gives every driven target the rotation between its two sampled poses,
    /// along the shorter arc.
    pub fn write_rotations<A, T>(&self, animation: &A, targets: &mut Vec<T>) -> (r: Result<
        (),
        MissingFrameError,
    >)
        where
            A: Animation,
            T: AnimationTarget,

        requires
            self@.fits(*animation, old(targets)@.len()),
        ensures
            final(targets)@.len() == old(targets)@.len(),
            self@.plays(*animation, old(targets)@, final(targets)@, writes_rotation(), r),
    {
        let function = |a: Pose, b: Pose, interpolate: Factor, current: Pose| -> (pose: Pose)
            ensures
                writes_rotation()(a, b, interpolate, current, pose),
            {
                let rotation = rotation_interp(&a.rotation, &b.rotation, interpolate);
                Pose { rotation, ..current }
            };
        let r = self.manipulate_pose(animation, targets, function);
        proof {
            self.lemma_plays_by_weaker_rule(
                *animation,
                old(targets)@,
                targets@,
                |a: Pose, b: Pose, f: Factor, before: Pose, after: Pose|
                    function.ensures((a, b, f, before), after),
                writes_rotation(),
                r,
            );
        }
        r
    }

    /// What was played by one rule was played by every weaker one.
    proof fn lemma_plays_by_weaker_rule<A: Animation, T: AnimationTarget>(
        &self,
        animation: A,
        before: Seq<T>,
        after: Seq<T>,
        rule: BlendRule,
        weaker: BlendRule,
        result: Result<(), MissingFrameError>,
    )
        requires
            self@.plays(animation, before, after, rule, result),
            forall|a: Pose, b: Pose, g: Factor, x: Pose, y: Pose| #[trigger]
                rule(a, b, g, x, y) ==> weaker(a, b, g, x, y),
        ensures
            self@.plays(animation, before, after, weaker, result),
    {
        if animation.times().len() > 0 {
            if let Some(from) = animation.frame(self@.current.0 as int) {
                if let Some(to) = animation.frame(self@.next.0 as int) {
                    lemma_played_by_weaker_rule(
                        before,
                        after,
                        target_slots(animation.targets(), before.len()),
                        from.0,
                        to.0,
                        self@.factor(animation.times().len(), from.1, to.1),
                        rule,
                        weaker,
                    );
                }
            }
        }
    }
}

} // verus!
