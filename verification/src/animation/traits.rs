//! What the cursor asks of a clip, of a collection of clips, and of the
//! things whose poses it drives.

use crate::pose::{quat_product, vec_sum, Pose};
use nalgebra_glm::{Quat, Vec3};
use vstd::prelude::*;

verus! {

/// Which target each pose of a frame drives.
pub enum Targets<'a> {
    /// The index of each pose is the index of the target it drives.
    InOrder,
    /// For each pose, by index, the index of the target it drives.
    Specified(&'a [usize]),
}

/// The target of each pose slot that is played onto `count` targets: the
/// listed ones, or, where none are listed, targets `0` to `count - 1` in order.
pub open spec fn target_slots(targets: Option<Seq<usize>>, count: nat) -> Seq<usize> {
    match targets {
        Some(listed) => listed,
        None => Seq::new(count, |i: int| i as usize),
    }
}

/// A clip: poses for a set of bones, sampled at increasing times.
pub trait Animation {
    /// The sample times, one for each frame. A clip that does not say what
    /// they are has some, which `sample_times` hands out.
    open spec fn times(&self) -> Seq<i64> {
        arbitrary()
    }

    /// The poses and the sample time of a frame, if the clip has it. A clip
    /// that does not say has some for each frame, which `get_frame` hands out.
    open spec fn frame(&self, frame: int) -> Option<(Seq<Pose>, i64)> {
        arbitrary()
    }

    /// The targets that the poses of a frame drive, if the clip lists them.
    /// A clip that does not say has some, which `get_targets` hands out.
    open spec fn targets(&self) -> Option<Seq<usize>> {
        arbitrary()
    }

    fn sample_times(&self) -> (r: &[i64])
        ensures
            r@ == self.times(),
    ;

    fn get_frame(&self, frame: usize) -> (r: Option<(&[Pose], i64)>)
        ensures
            match r {
                Some((poses, time)) => self.frame(frame as int) == Some((poses@, time)),
                None => self.frame(frame as int) is None,
            },
    ;

    fn get_targets<'a>(&'a self) -> (r: Targets<'a>)
        ensures
            match r {
                Targets::InOrder => self.targets() is None,
                Targets::Specified(listed) => self.targets() == Some(listed@),
            },
    ;

    /// The number of frames.
    fn frames(&self) -> (r: usize)
        ensures
            r == self.times().len(),
    {
        self.sample_times().len()
    }

    /// The time of the last sample, if there is one.
    fn duration(&self) -> (r: Option<i64>)
        ensures
            r == if self.times().len() > 0 {
                Some(self.times().last())
            } else {
                None
            },
    {
        let times = self.sample_times();
        if times.len() > 0 {
            Some(times[times.len() - 1])
        } else {
            None
        }
    }

    fn first_frame(&self) -> (r: Option<(&[Pose], i64)>)
        ensures
            match r {
                Some((poses, time)) => self.frame(0) == Some((poses@, time)),
                None => self.frame(0) is None,
            },
    {
        self.get_frame(0)
    }

    /// The frame of the last sample; none for a clip without samples.
    fn last_frame(&self) -> (r: Option<(&[Pose], i64)>)
        ensures
            match r {
                Some((poses, time)) => self.times().len() > 0 && self.frame(self.times().len() - 1)
                    == Some((poses@, time)),
                None => self.times().len() == 0 || self.frame(self.times().len() - 1) is None,
            },
    {
        let frames = self.frames();
        if frames > 0 {
            self.get_frame(frames - 1)
        } else {
            None
        }
    }
}

/// A collection of clips, found by index.
pub trait AnimationLibrary<A: Animation> {
    /// The clip at `index`, if there is one. A collection that does not say
    /// has some, which `get_animation` hands out.
    open spec fn animation(&self, index: int) -> Option<A> {
        arbitrary()
    }

    fn get_animation(&self, index: usize) -> (r: Option<&A>)
        ensures
            match r {
                Some(animation) => self.animation(index as int) == Some(*animation),
                None => self.animation(index as int) is None,
            },
    ;
}

/// Something with a pose that a clip can drive.
pub trait AnimationTarget {
    /// The pose of the target. A target that does not say what it is has
    /// some, which `get_pose` hands out.
    open spec fn pose(&self) -> Pose {
        arbitrary()
    }

    fn set_pose(&mut self, pose: Pose)
        ensures
            final(self).pose() == pose,
    ;

    fn get_pose_mut(&mut self) -> (r: &mut Pose)
        ensures
            *r == old(self).pose(),
            final(self).pose() == *final(r),
    ;

    fn get_pose(&self) -> (r: Pose)
        ensures
            r == self.pose(),
    ;

    /// Puts `pose` in front of the target's pose: the target's pose is done
    /// first, then `pose`.
    fn add_pose(&mut self, pose: Pose)
        ensures
            final(self).pose() == pose.composed(old(self).pose()),
    {
        let pose = pose.compose(&self.get_pose());
        self.set_pose(pose)
    }

    fn add_translation(&mut self, translation: Vec3)
        ensures
            final(self).pose() == (Pose {
                translation: vec_sum(old(self).pose().translation, translation),
                ..old(self).pose()
            }),
    {
        self.get_pose_mut().add_translation(translation);
    }

    /// Puts `rotation` in front of the target's rotation.
    fn add_rotation(&mut self, rotation: Quat)
        ensures
            final(self).pose() == (Pose {
                rotation: quat_product(rotation, old(self).pose().rotation),
                ..old(self).pose()
            }),
    {
        self.get_pose_mut().add_rotation(rotation);
    }
}

impl AnimationTarget for Pose {
    open spec fn pose(&self) -> Pose {
        *self
    }

    fn set_pose(&mut self, pose: Pose) {
        *self = pose;
    }

    fn get_pose_mut(&mut self) -> (r: &mut Pose) {
        self
    }

    fn get_pose(&self) -> (r: Pose) {
        *self
    }

    fn add_pose(&mut self, pose: Pose) {
        *self = pose.compose(self);
    }
}

} // verus!
