//! Sampled clips and the cursor that plays them.

pub mod animator;
pub mod controller;
pub mod library;
pub mod traits;

use crate::animation::animator::{is_time_axis, valid_time_axis};
use crate::pose::Pose;
use vstd::prelude::*;
use vstd::slice::slice_subrange;

verus! {

/// A clip: for each of `keyframes` sample times, one pose for each of `bones`
/// pose slots, frame after frame in `poses`.
#[derive(Clone, Debug)]
pub struct Animation {
    pub keyframes: usize,
    pub bones: usize,
    pub poses: Vec<Pose>,
    pub times: Vec<i64>,
    pub targets: Option<Vec<usize>>,
}

/// `times` with every time counted from the first.
pub open spec fn times_from_first(times: Seq<i64>) -> Seq<i64> {
    Seq::new(times.len(), |i: int| (times[i] - times[0]) as i64)
}

impl Animation {
    /// There is one time for each keyframe and one pose for each slot of each
    /// keyframe; the times increase, the first being zero.
    pub open spec fn well_formed(&self) -> bool {
        &&& self.keyframes == self.times@.len()
        &&& self.poses@.len() == self.bones * self.keyframes
        &&& self.keyframes > 0 ==> valid_time_axis(self.times@)
    }

    /// The clip holds a time and a full set of poses for keyframe `frame`.
    /// In a well-formed clip that is so of every keyframe it counts.
    pub open spec fn has_frame(&self, frame: int) -> bool {
        &&& 0 <= frame < self.keyframes
        &&& frame < self.times@.len()
        &&& (frame + 1) * self.bones <= self.poses@.len()
    }

    /// The poses of keyframe `frame`, one for each slot.
    pub open spec fn poses_of(&self, frame: int) -> Seq<Pose> {
        self.poses@.subrange(frame * self.bones, frame * self.bones + self.bones)
    }

    /// A clip of the poses and times given, the times counted from the first.
    pub fn from_poses_and_times(
        bones: usize,
        poses: &[Pose],
        times: &[i64],
        targets: Option<Vec<usize>>,
    ) -> (r: Animation)
        requires
            poses@.len() == bones * times@.len(),
            forall|i: int|
                0 <= i < times@.len() ==> i64::MIN <= #[trigger] times@[i] - times@[0] <= i64::MAX,
        ensures
            r.keyframes == times@.len(),
            r.bones == bones,
            r.poses@ == poses@,
            r.times@ == times_from_first(times@),
            r.targets == targets,
            (forall|i: int, j: int| 0 <= i < j < times@.len() ==> times@[i] < times@[j])
                ==> r.well_formed(),
    {
        let keyframes = times.len();
        let mut new_times: Vec<i64> = Vec::with_capacity(times.len());
        let mut i: usize = 0;
        while i < times.len()
            invariant
                i <= times@.len(),
                forall|k: int|
                    0 <= k < times@.len() ==> i64::MIN <= #[trigger] times@[k] - times@[0]
                        <= i64::MAX,
                new_times@ == times_from_first(times@).take(i as int),
            decreases times@.len() - i,
        {
            new_times.push(times[i] - times[0]);
            i += 1;
            assert(new_times@ =~= times_from_first(times@).take(i as int));
        }
        assert(times_from_first(times@).take(i as int) =~= times_from_first(times@));
        let mut new_poses: Vec<Pose> = Vec::new();
        let mut j: usize = 0;
        while j < poses.len()
            invariant
                j <= poses@.len(),
                new_poses@ == poses@.take(j as int),
            decreases poses@.len() - j,
        {
            new_poses.push(poses[j]);
            j += 1;
            assert(new_poses@ =~= poses@.take(j as int));
        }
        assert(poses@.take(j as int) =~= poses@);
        Animation { keyframes, bones, poses: new_poses, times: new_times, targets }
    }

    /// A clip without frames, with room set aside for `keyframes` of them.
    pub fn with_capacity(bones: usize, keyframes: usize, targets: Option<Vec<usize>>) -> (r:
        Animation)
        requires
            bones * keyframes <= usize::MAX,
        ensures
            r.keyframes == 0,
            r.bones == bones,
            r.poses@.len() == 0,
            r.times@.len() == 0,
            r.targets == targets,
            r.well_formed(),
    {
        assert(bones * 0 == 0) by (nonlinear_arith);
        Animation {
            keyframes: 0,
            bones,
            poses: Vec::with_capacity(bones * keyframes),
            times: Vec::with_capacity(keyframes),
            targets,
        }
    }

    /// A clip without frames.
    pub fn new(bones: usize, targets: Option<Vec<usize>>) -> (r: Animation)
        ensures
            r.keyframes == 0,
            r.bones == bones,
            r.poses@.len() == 0,
            r.times@.len() == 0,
            r.targets == targets,
            r.well_formed(),
    {
        assert(bones * 0 == 0) by (nonlinear_arith);
        Animation { keyframes: 0, bones, poses: Vec::new(), times: Vec::new(), targets }
    }

    /// Appends a frame. The first frame is put at time zero, whatever `time`
    /// is; every later one must come after the frame before it.
    pub fn add_frame(&mut self, poses: &[Pose], time: i64)
        requires
            poses@.len() == old(self).bones,
            old(self).times@.len() > 0 ==> old(self).times@.last() < time,
            old(self).keyframes < usize::MAX,
        ensures
            final(self).bones == old(self).bones,
            final(self).targets == old(self).targets,
            final(self).keyframes == old(self).keyframes + 1,
            final(self).poses@ == old(self).poses@ + poses@,
            final(self).times@ == old(self).times@.push(
                if old(self).times@.len() > 0 {
                    time
                } else {
                    0
                },
            ),
            old(self).well_formed() ==> final(self).well_formed(),
    {
        let time = if self.times.len() > 0 {
            time
        } else {
            0
        };
        let ghost before = self.poses@;
        let mut i: usize = 0;
        while i < poses.len()
            invariant
                i <= poses@.len(),
                self.poses@ == before + poses@.take(i as int),
                self.times == old(self).times,
                self.bones == old(self).bones,
                self.targets == old(self).targets,
                self.keyframes == old(self).keyframes,
            decreases poses@.len() - i,
        {
            self.poses.push(poses[i]);
            i += 1;
            assert(self.poses@ =~= before + poses@.take(i as int));
        }
        assert(poses@.take(i as int) =~= poses@);
        self.keyframes += 1;
        self.times.push(time);
        proof {
            if old(self).well_formed() {
                let bones = self.bones as int;
                let frames = old(self).keyframes as int;
                assert(bones * (frames + 1) == bones * frames + bones) by (nonlinear_arith);
                let times = self.times@;
                assert forall|a: int, b: int| 0 <= a < b < times.len() implies times[a]
                    < times[b] by {
                    if b == times.len() - 1 {
                        assert(old(self).times@[a] <= old(self).times@.last());
                    }
                }
            }
        }
    }

    /// The poses of keyframe `frame` and its time.
    pub fn get_frame_and_time(&self, frame: usize) -> (r: (&[Pose], i64))
        requires
            self.has_frame(frame as int),
        ensures
            r.0@ == self.poses_of(frame as int),
            r.0@.len() == self.bones,
            r.1 == self.times@[frame as int],
    {
        let len = self.poses.len();
        proof {
            let bones = self.bones as int;
            let at = frame as int;
            assert(0 <= at * bones && (at + 1) * bones == at * bones + bones) by (nonlinear_arith)
                requires
                    0 <= at,
                    0 <= bones,
            ;
        }
        let start = frame * self.bones;
        let end = start + self.bones;
        (slice_subrange(self.poses.as_slice(), start, end), self.times[frame])
    }

    /// The time of the keyframe after `current_frame`, if there is one.
    pub fn next_frame_time(&self, current_frame: usize) -> (r: Option<i64>)
        requires
            self.well_formed(),
        ensures
            r == if current_frame + 1 < self.keyframes {
                Some(self.times@[current_frame + 1])
            } else {
                None
            },
    {
        if current_frame >= self.keyframes {
            return None;
        }
        let next = current_frame + 1;
        if next >= self.keyframes {
            return None;
        }
        Some(self.times[next])
    }

    /// Whether the clip holds a time and a full set of poses for keyframe `frame`.
    fn holds_frame(&self, frame: usize) -> (r: bool)
        ensures
            r == self.has_frame(frame as int),
    {
        let len = self.poses.len();
        if frame >= self.keyframes || frame >= self.times.len() {
            return false;
        }
        match (frame + 1).checked_mul(self.bones) {
            Some(end) => end <= len,
            None => false,
        }
    }
}

/// A well-formed clip has exactly the frames that it counts: a frame is
/// missing if and only if its index is not below the number of keyframes.
pub proof fn lemma_well_formed_has_its_frames(clip: Animation, frame: int)
    requires
        clip.well_formed(),
    ensures
        clip.has_frame(frame) <==> 0 <= frame < clip.keyframes,
{
    if 0 <= frame < clip.keyframes {
        let bones = clip.bones as int;
        let frames = clip.keyframes as int;
        assert((frame + 1) * bones <= bones * frames) by (nonlinear_arith)
            requires
                0 <= frame < frames,
                0 <= bones,
        ;
    }
}

impl traits::Animation for Animation {
    open spec fn times(&self) -> Seq<i64> {
        self.times@
    }

    open spec fn frame(&self, frame: int) -> Option<(Seq<Pose>, i64)> {
        if self.has_frame(frame) {
            Some((self.poses_of(frame), self.times@[frame]))
        } else {
            None
        }
    }

    open spec fn targets(&self) -> Option<Seq<usize>> {
        match self.targets {
            Some(listed) => Some(listed@),
            None => None,
        }
    }

    fn sample_times(&self) -> (r: &[i64]) {
        self.times.as_slice()
    }

    fn get_frame(&self, frame: usize) -> (r: Option<(&[Pose], i64)>) {
        if !self.holds_frame(frame) {
            return None;
        }
        Some(self.get_frame_and_time(frame))
    }

    fn get_targets<'a>(&'a self) -> (r: traits::Targets<'a>) {
        match &self.targets {
            Some(target) => traits::Targets::Specified(target.as_slice()),
            None => traits::Targets::InOrder,
        }
    }
}

impl Animation {
    /// Whether the clip holds one time for each keyframe and one pose for
    /// each slot of each keyframe, at increasing times from zero.
    pub fn is_well_formed(&self) -> (r: bool)
        ensures
            r == self.well_formed(),
    {
        let len = self.poses.len();
        if self.keyframes != self.times.len() {
            return false;
        }
        match self.bones.checked_mul(self.keyframes) {
            Some(count) => {
                if count != len {
                    return false;
                }
            },
            None => {
                return false;
            },
        }
        self.keyframes == 0 || is_time_axis(self.times.as_slice())
    }
}

} // verus!
