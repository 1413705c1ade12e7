//! Clips bound to cursors and blend rules, and the controller that drives a
//! set of targets with them every tick.

use crate::animation::animator::{
    adds_pose, adds_rotation, append_text, writes_pose, writes_rotation, Animator, BlendRule,
    MissingFrameError, Playback,
};
use crate::animation::traits::{Animation, AnimationLibrary, AnimationTarget};
use vstd::prelude::*;

verus! {

/// How an instance changes the poses of its targets.
pub enum InstanceType {
    /// The sampled pose is put in front of the target's pose.
    AllAdd,
    /// The sampled pose replaces the target's pose.
    AllWrite,
    /// The sampled rotation is put in front of the target's rotation.
    RotationAdd,
    /// The sampled rotation replaces the target's rotation.
    RotationWrite,
}

impl InstanceType {
    /// The rule that the kind stands for.
    pub open spec fn rule(self) -> BlendRule {
        match self {
            InstanceType::AllAdd => adds_pose(),
            InstanceType::AllWrite => writes_pose(),
            InstanceType::RotationAdd => adds_rotation(),
            InstanceType::RotationWrite => writes_rotation(),
        }
    }
}

/// The library has no clip at the index that an instance plays.
#[derive(Debug, Clone, Copy, PartialEq, Eq, Structural)]
pub struct MissingAnimationError {
    pub animation: usize,
}

impl MissingAnimationError {
    pub fn new(animation: usize) -> (r: MissingAnimationError)
        ensures
            r.animation == animation,
    {
        MissingAnimationError { animation }
    }

    /// The error in words, with the index of the clip, as `to_string`
    /// writes it, in them.
    pub fn message(&self) -> (r: String)
        ensures
            exists|number: String| #[trigger]
                vstd::string::to_string_from_display_ensures::<usize>(&self.animation, number)
                    && r@ == "Missing "@ + number@ + " animation"@,
    {
        let mut text = "Missing ".to_string();
        let number = self.animation.to_string();
        append_text(&mut text, number.as_str());
        append_text(&mut text, " animation");
        text
    }
}

/// Why the poses could not be updated.
#[derive(Debug, Clone, Copy, PartialEq, Eq, Structural)]
pub enum PoseUpdateError {
    MissingAnimation(MissingAnimationError),
    MissingFrame(MissingFrameError),
}

/// A cursor playing the clip at an index of a library, by a blend rule.
pub struct AnimationInstance {
    pub animator: Animator,
    animation_index: usize,
    instance_type: InstanceType,
}

/// What an instance holds, as plain values.
pub struct Track {
    pub cursor: Playback,
    pub index: usize,
    pub kind: InstanceType,
}

impl View for AnimationInstance {
    type V = Track;

    closed spec fn view(&self) -> Track {
        Track { cursor: self.animator@, index: self.animation_index, kind: self.instance_type }
    }
}

impl Track {
    /// The clip that the instance plays can be played: see `Playback::playable`.
    pub open spec fn playable<A: Animation, L: AnimationLibrary<A>>(self, library: L) -> bool {
        library.animation(self.index as int) matches Some(animation) ==> self.cursor.playable(
            animation.times(),
        )
    }

    /// The instance with its bracket brought up to its clock, where the
    /// library has its clip.
    pub open spec fn updated<A: Animation, L: AnimationLibrary<A>>(self, library: L) -> Track {
        match library.animation(self.index as int) {
            Some(animation) => Track { cursor: self.cursor.updated(animation.times()), ..self },
            None => self,
        }
    }

    /// The bracket fits the targets in the clip that the instance plays: see
    /// `Playback::fits`.
    pub open spec fn fits<A: Animation, L: AnimationLibrary<A>>(self, library: L, count: nat) -> bool {
        library.animation(self.index as int) matches Some(animation) ==> self.cursor.fits(
            animation,
            count,
        )
    }

    /// What the instance does to targets: an error that names its index,
    /// and no change, where the library lacks its clip; otherwise what its
    /// cursor does with the clip by its rule.
    pub open spec fn plays<A: Animation, L: AnimationLibrary<A>, T: AnimationTarget>(
        self,
        library: L,
        before: Seq<T>,
        after: Seq<T>,
        result: Result<(), PoseUpdateError>,
    ) -> bool {
        match library.animation(self.index as int) {
            None => result == Err::<(), PoseUpdateError>(
                PoseUpdateError::MissingAnimation(MissingAnimationError { animation: self.index }),
            ) && after == before,
            Some(animation) => match result {
                Ok(()) => self.cursor.plays(animation, before, after, self.kind.rule(), Ok(())),
                Err(PoseUpdateError::MissingFrame(e)) => self.cursor.plays(
                    animation,
                    before,
                    after,
                    self.kind.rule(),
                    Err(e),
                ),
                Err(PoseUpdateError::MissingAnimation(_)) => false,
            },
        }
    }
}

impl AnimationInstance {
    pub fn new(animator: Animator, index: usize, instance_type: InstanceType) -> (r:
        AnimationInstance)
        ensures
            r@ == (Track { cursor: animator@, index, kind: instance_type }),
    {
        AnimationInstance { animator, animation_index: index, instance_type }
    }

    /// Whether the clip that the instance plays can be played: see
    /// `Track::playable`.
    pub fn can_update_frames<A: Animation, L: AnimationLibrary<A>>(&self, library: &L) -> (r: bool)
        ensures
            r == self@.playable(*library),
    {
        match library.get_animation(self.animation_index) {
            Some(animation) => self.animator.can_play(animation.sample_times()),
            None => true,
        }
    }

    /// Whether the bracket fits `count` targets in the clip that the
    /// instance plays: see `Track::fits`.
    pub fn can_update_pose<A: Animation, L: AnimationLibrary<A>>(
        &self,
        library: &L,
        count: usize,
    ) -> (r: bool)
        ensures
            r == self@.fits(*library, count as nat),
    {
        match library.get_animation(self.animation_index) {
            Some(animation) => self.animator.fits(animation, count),
            None => true,
        }
    }

    /// Brings the bracket of the cursor up to its clock, over the clip that
    /// the instance plays.
    pub fn update_frames<A: Animation, L: AnimationLibrary<A>>(&mut self, library: &L) -> (r:
        Result<(), MissingAnimationError>)
        requires
            old(self)@.playable(*library),
        ensures
            final(self)@ == old(self)@.updated(*library),
            r == if library.animation(old(self)@.index as int) is Some {
                Ok::<(), MissingAnimationError>(())
            } else {
                Err::<(), MissingAnimationError>(
                    MissingAnimationError { animation: old(self)@.index },
                )
            },
    {
        let animation = match library.get_animation(self.animation_index) {
            Some(animation) => animation,
            None => {
                return Err(MissingAnimationError { animation: self.animation_index });
            },
        };
        let sample_times = animation.sample_times();
        self.animator.update_frames(sample_times);
        Ok(())
    }

    /// Plays the bracket of the cursor onto the targets, by the rule of the
    /// instance.
    pub fn update_pose<A: Animation, L: AnimationLibrary<A>, T: AnimationTarget>(
        &self,
        library: &L,
        targets: &mut Vec<T>,
    ) -> (r: Result<(), PoseUpdateError>)
        requires
            self@.fits(*library, old(targets)@.len()),
        ensures
            final(targets)@.len() == old(targets)@.len(),
            self@.plays(*library, old(targets)@, final(targets)@, r),
    {
        let animation = match library.get_animation(self.animation_index) {
            Some(animation) => animation,
            None => {
                return Err(
                    PoseUpdateError::MissingAnimation(
                        MissingAnimationError { animation: self.animation_index },
                    ),
                );
            },
        };
        let played = match &self.instance_type {
            InstanceType::RotationWrite => self.animator.write_rotations(animation, targets),
            InstanceType::RotationAdd => self.animator.add_rotations(animation, targets),
            InstanceType::AllAdd => self.animator.add_pose(animation, targets),
            InstanceType::AllWrite => self.animator.write_pose(animation, targets),
        };
        match played {
            Ok(()) => Ok(()),
            Err(e) => Err(PoseUpdateError::MissingFrame(e)),
        }
    }
}

/// The instances played one after the other, up to the first that fails:
/// `stages` holds the targets before the first instance and after each one
/// played, and `result` is what the last one played gave. Every instance is
/// played unless one fails; the ones after it are not.
pub open spec fn all_play_through<A: Animation, L: AnimationLibrary<A>, T: AnimationTarget>(
    stages: Seq<Seq<T>>,
    instances: Seq<Track>,
    library: L,
    result: Result<(), PoseUpdateError>,
) -> bool {
    &&& 1 <= stages.len() <= instances.len() + 1
    &&& result is Ok ==> stages.len() == instances.len() + 1
    &&& result is Err ==> stages.len() >= 2
    &&& forall|i: int|
        0 <= i < stages.len() - 1 ==> (#[trigger] instances[i]).plays(
            library,
            stages[i],
            stages[i + 1],
            if i == stages.len() - 2 {
                result
            } else {
                Ok(())
            },
        )
}

/// `after` and `result` are what playing the instances onto `before` can give.
pub open spec fn all_play<A: Animation, L: AnimationLibrary<A>, T: AnimationTarget>(
    instances: Seq<Track>,
    library: L,
    before: Seq<T>,
    after: Seq<T>,
    result: Result<(), PoseUpdateError>,
) -> bool {
    exists|stages: Seq<Seq<T>>| #[trigger]
        all_play_through(stages, instances, library, result) && stages[0] == before
            && stages.last() == after
}

/// A set of instances that are advanced and played together.
pub struct Controller {
    animations: Vec<AnimationInstance>,
}

impl View for Controller {
    type V = Seq<Track>;

    closed spec fn view(&self) -> Seq<Track> {
        Seq::new(self.animations@.len(), |i: int| self.animations@[i]@)
    }
}

/// Some instance before the `n`-th plays a clip that the library lacks.
pub open spec fn clip_missing_before<A: Animation, L: AnimationLibrary<A>>(
    instances: Seq<Track>,
    library: L,
    n: int,
) -> bool {
    exists|i: int| 0 <= i < n && #[trigger] library.animation(instances[i].index as int) is None
}

impl Controller {
    pub fn new() -> (r: Controller)
        ensures
            r@ == Seq::<Track>::empty(),
    {
        let r = Controller { animations: Vec::new() };
        assert(r@ =~= Seq::<Track>::empty());
        r
    }

    pub fn add_instance(&mut self, instance: AnimationInstance)
        ensures
            final(self)@ == old(self)@.push(instance@),
    {
        self.animations.push(instance);
        assert(self@ =~= old(self)@.push(instance@));
    }

    /// Whether the clock of every instance can be moved by `time`.
    pub fn can_add_time(&self, time: i64) -> (r: bool)
        ensures
            r == forall|i: int|
                0 <= i < self@.len() ==> (#[trigger] self@[i]).cursor.can_advance(time),
    {
        let mut i: usize = 0;
        while i < self.animations.len()
            invariant
                i <= self@.len(),
                forall|k: int| 0 <= k < i ==> (#[trigger] self@[k]).cursor.can_advance(time),
            decreases self@.len() - i,
        {
            if !self.animations[i].animator.can_add_time(time) {
                assert(!self@[i as int].cursor.can_advance(time));
                return false;
            }
            i += 1;
        }
        true
    }

    /// Whether the clip of every instance can be played.
    pub fn can_update_animators<A: Animation, L: AnimationLibrary<A>>(&self, library: &L) -> (r:
        bool)
        ensures
            r == forall|i: int| 0 <= i < self@.len() ==> (#[trigger] self@[i]).playable(*library),
    {
        let mut i: usize = 0;
        while i < self.animations.len()
            invariant
                i <= self@.len(),
                forall|k: int| 0 <= k < i ==> (#[trigger] self@[k]).playable(*library),
            decreases self@.len() - i,
        {
            if !self.animations[i].can_update_frames(library) {
                assert(!self@[i as int].playable(*library));
                return false;
            }
            i += 1;
        }
        true
    }

    /// Whether the bracket of every instance fits `count` targets.
    pub fn can_update_pose<A: Animation, L: AnimationLibrary<A>>(
        &self,
        library: &L,
        count: usize,
    ) -> (r: bool)
        ensures
            r == forall|i: int|
                0 <= i < self@.len() ==> (#[trigger] self@[i]).fits(*library, count as nat),
    {
        let mut i: usize = 0;
        while i < self.animations.len()
            invariant
                i <= self@.len(),
                forall|k: int| 0 <= k < i ==> (#[trigger] self@[k]).fits(*library, count as nat),
            decreases self@.len() - i,
        {
            if !self.animations[i].can_update_pose(library, count) {
                assert(!self@[i as int].fits(*library, count as nat));
                return false;
            }
            i += 1;
        }
        true
    }

    /// Moves the clock of every instance by `time`, each in its own direction.
    pub fn add_time(&mut self, time: i64)
        requires
            forall|i: int|
                0 <= i < old(self)@.len() ==> (#[trigger] old(self)@[i]).cursor.can_advance(time),
        ensures
            final(self)@.len() == old(self)@.len(),
            forall|i: int|
                0 <= i < old(self)@.len() ==> #[trigger] final(self)@[i] == (Track {
                    cursor: old(self)@[i].cursor.advanced(time),
                    ..old(self)@[i]
                }),
    {
        let mut i: usize = 0;
        while i < self.animations.len()
            invariant
                i <= self@.len(),
                self@.len() == old(self)@.len(),
                forall|k: int|
                    0 <= k < old(self)@.len() ==> (#[trigger] old(self)@[k]).cursor.can_advance(time),
                forall|k: int|
                    0 <= k < i ==> #[trigger] self@[k] == (Track {
                        cursor: old(self)@[k].cursor.advanced(time),
                        ..old(self)@[k]
                    }),
                forall|k: int| i <= k < self@.len() ==> #[trigger] self@[k] == old(self)@[k],
            decreases self@.len() - i,
        {
            let ghost before = self@;
            assert(before[i as int] == old(self)@[i as int]);
            self.animations[i].animator.add_time(time);
            assert forall|k: int| 0 <= k < self@.len() && k != i implies #[trigger] self@[k]
                == before[k] by {}
            i += 1;
        }
    }

    /// Brings the bracket of every instance up to its clock, in order, up to
    /// the first instance whose clip the library lacks: its index is the
    /// error, and it and the later instances are left as they were.
    pub fn update_animators<A: Animation, L: AnimationLibrary<A>>(&mut self, library: &L) -> (r:
        Result<(), MissingAnimationError>)
        requires
            forall|i: int| 0 <= i < old(self)@.len() ==> (#[trigger] old(self)@[i]).playable(*library),
        ensures
            final(self)@.len() == old(self)@.len(),
            r is Ok <==> !clip_missing_before(old(self)@, *library, old(self)@.len() as int),
            forall|i: int|
                0 <= i < old(self)@.len() ==> #[trigger] final(self)@[i] == if clip_missing_before(
                    old(self)@,
                    *library,
                    i + 1,
                ) {
                    old(self)@[i]
                } else {
                    old(self)@[i].updated(*library)
                },
            forall|i: int|
                0 <= i < old(self)@.len() && !clip_missing_before(old(self)@, *library, i)
                    && #[trigger] library.animation(old(self)@[i].index as int) is None ==> r
                    == Err::<(), MissingAnimationError>(
                    MissingAnimationError { animation: old(self)@[i].index },
                ),
    {
        let mut i: usize = 0;
        while i < self.animations.len()
            invariant
                i <= self@.len(),
                self@.len() == old(self)@.len(),
                forall|k: int|
                    0 <= k < old(self)@.len() ==> (#[trigger] old(self)@[k]).playable(*library),
                !clip_missing_before(old(self)@, *library, i as int),
                forall|k: int| 0 <= k < i ==> #[trigger] self@[k] == old(self)@[k].updated(*library),
                forall|k: int| i <= k < self@.len() ==> #[trigger] self@[k] == old(self)@[k],
            decreases self@.len() - i,
        {
            let ghost before = self@;
            assert(before[i as int] == old(self)@[i as int]);
            assert(old(self)@[i as int].playable(*library));
            match self.animations[i].update_frames(library) {
                Ok(()) => {},
                Err(e) => {
                    proof {
                        assert forall|k: int| 0 <= k < self@.len() && k != i implies #[trigger] self@[k]
                            == before[k] by {}
                        assert(library.animation(old(self)@[i as int].index as int) is None);
                        assert forall|k: int|
                            0 <= k < old(self)@.len() && !clip_missing_before(
                                old(self)@,
                                *library,
                                k,
                            ) && #[trigger] library.animation(old(self)@[k].index as int) is None implies k
                            == i by {
                            if k < i {
                                assert(clip_missing_before(old(self)@, *library, i as int));
                            }
                        }
                        assert forall|k: int| 0 <= k < old(self)@.len() implies #[trigger] self@[k]
                            == if clip_missing_before(old(self)@, *library, k + 1) {
                            old(self)@[k]
                        } else {
                            old(self)@[k].updated(*library)
                        } by {
                            if k < i {
                                if clip_missing_before(old(self)@, *library, k + 1) {
                                    assert(clip_missing_before(old(self)@, *library, i as int));
                                }
                            } else {
                                assert(clip_missing_before(old(self)@, *library, k + 1));
                            }
                        }
                        assert(clip_missing_before(old(self)@, *library, old(self)@.len() as int));
                    }
                    return Err(e);
                },
            }
            proof {
                assert forall|k: int| 0 <= k < self@.len() && k != i implies #[trigger] self@[k]
                    == before[k] by {}
                assert(!clip_missing_before(old(self)@, *library, i + 1)) by {
                    if clip_missing_before(old(self)@, *library, i + 1) {
                        let w = choose|w: int|
                            0 <= w < i + 1 && #[trigger] library.animation(
                                old(self)@[w].index as int,
                            ) is None;
                        if w < i {
                            assert(clip_missing_before(old(self)@, *library, i as int));
                        }
                    }
                }
            }
            i += 1;
        }
        proof {
            assert forall|k: int| 0 <= k < old(self)@.len() implies #[trigger] self@[k]
                == if clip_missing_before(old(self)@, *library, k + 1) {
                old(self)@[k]
            } else {
                old(self)@[k].updated(*library)
            } by {
                if clip_missing_before(old(self)@, *library, k + 1) {
                    assert(clip_missing_before(old(self)@, *library, i as int));
                }
            }
        }
        Ok(())
    }

    /// Plays every instance onto the targets, in order, up to the first that
    /// fails.
    pub fn update_pose<A: Animation, L: AnimationLibrary<A>, T: AnimationTarget>(
        &self,
        library: &L,
        targets: &mut Vec<T>,
    ) -> (r: Result<(), PoseUpdateError>)
        requires
            forall|i: int|
                0 <= i < self@.len() ==> (#[trigger] self@[i]).fits(*library, old(targets)@.len()),
        ensures
            final(targets)@.len() == old(targets)@.len(),
            all_play(self@, *library, old(targets)@, final(targets)@, r),
    {
        let mut i: usize = 0;
        let ghost mut stages: Seq<Seq<T>> = seq![targets@];
        while i < self.animations.len()
            invariant
                i <= self@.len(),
                targets@.len() == old(targets)@.len(),
                forall|k: int|
                    0 <= k < self@.len() ==> (#[trigger] self@[k]).fits(
                        *library,
                        old(targets)@.len(),
                    ),
                stages.len() == i + 1,
                stages[0] == old(targets)@,
                stages[i as int] == targets@,
                forall|k: int|
                    0 <= k < i ==> (#[trigger] self@[k]).plays(
                        *library,
                        stages[k],
                        stages[k + 1],
                        Ok::<(), PoseUpdateError>(()),
                    ),
            decreases self@.len() - i,
        {
            assert(self@[i as int].fits(*library, targets@.len()));
            let played = self.animations[i].update_pose(library, targets);
            proof {
                stages = stages.push(targets@);
            }
            match played {
                Ok(()) => {},
                Err(e) => {
                    assert(all_play_through(stages, self@, *library, played));
                    return Err(e);
                },
            }
            i += 1;
        }
        assert(all_play_through(stages, self@, *library, Ok::<(), PoseUpdateError>(())));
        Ok(())
    }
}

} // verus!
