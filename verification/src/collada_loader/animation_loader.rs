//! A clip from the animations of the joints of a skeleton.

use crate::animation::Animation;
use crate::collada_load::animation::{frame_times, joined, rising, same_times};
use crate::pose::Pose;
use nalgebra_glm::Mat4;
use vstd::prelude::*;

verus! {

/// The animations cannot be made into one clip.
#[derive(Debug, Clone, Copy, PartialEq, Eq, Structural)]
pub struct AnimationLoadError;

impl AnimationLoadError {
    /// The error in words.
    pub fn message(&self) -> (r: String)
        ensures
            r@ == "Failed to load animation"@,
    {
        "Failed to load animation".to_string()
    }
}

/// The animation of one joint: the path of what it drives, which begins
/// with the name of the joint, and a matrix for each sample time.
pub struct JointAnimation {
    pub target: String,
    pub sample_times: Vec<i64>,
    pub sample_poses: Vec<Mat4>,
}

/// The part of a path before its first `/`; the whole of a path without one.
pub open spec fn before_slash(path: Seq<char>) -> Seq<char> {
    match path.index_of_first('/') {
        Some(at) => path.take(at),
        None => path,
    }
}

/// The index of the joint that a target path names, if any joint has the
/// name: the first such joint.
pub open spec fn joint_index_of(joint_names: Seq<String>, target: Seq<char>) -> Option<usize> {
    if exists|i: int| 0 <= i < joint_names.len() && joint_names[i]@ == before_slash(target) {
        Some(
            choose|i: usize|
                i < joint_names.len() && joint_names[i as int]@ == before_slash(target) && forall|
                    k: int,
                |
                    0 <= k < i ==> joint_names[k]@ != before_slash(target),
        )
    } else {
        None
    }
}

/// The place that an animation takes among the joints: the index of its
/// joint, or the first place if no joint has the name.
pub open spec fn joint_key_of(joint_names: Seq<String>, animation: JointAnimation) -> usize {
    match joint_index_of(joint_names, animation.target@) {
        Some(index) => index,
        None => 0,
    }
}

/// The animations with the key `key`, in the order in which they stand.
pub open spec fn with_key(
    animations: Seq<JointAnimation>,
    joint_names: Seq<String>,
    key: usize,
) -> Seq<JointAnimation> {
    animations.filter(|a: JointAnimation| joint_key_of(joint_names, a) == key)
}

/// `str::split_once` on `/`: the part of the path before the first `/`, or
/// the whole path where it holds none.
#[verifier::external_body]
fn first_part(path: &String) -> (r: String)
    ensures
        r@ == before_slash(path@),
{
    match path.split_once('/') {
        Some((head, _)) => head.to_string(),
        None => path.clone(),
    }
}

/// `sort_by_key` of a vector, by the place that each animation takes among
/// the joints. The sort is stable: the keys rise, and the animations of one
/// key stay in the order that they had.
#[verifier::external_body]
fn sort_by_joint(animations: &mut Vec<JointAnimation>, joint_names: &[String])
    ensures
        final(animations)@.len() == old(animations)@.len(),
        forall|i: int, j: int|
            0 <= i < j < final(animations)@.len() ==> joint_key_of(
                joint_names@,
                final(animations)@[i],
            ) <= joint_key_of(joint_names@, final(animations)@[j]),
        forall|key: usize|
            with_key(final(animations)@, joint_names@, key) == with_key(
                old(animations)@,
                joint_names@,
                key,
            ),
{
    animations.sort_by_key(|animation| joint_key(joint_names, animation));
}

/// The index of the joint that the animation drives: the first joint whose
/// name is the target of the animation up to its first `/`.
pub fn get_joint_index(joint_names: &[String], animation: &JointAnimation) -> (r: Option<usize>)
    ensures
        r == joint_index_of(joint_names@, animation.target@),
{
    let target = first_part(&animation.target);
    let mut i: usize = 0;
    while i < joint_names.len()
        invariant
            i <= joint_names@.len(),
            target@ == before_slash(animation.target@),
            forall|k: int| 0 <= k < i ==> joint_names@[k]@ != target@,
        decreases joint_names@.len() - i,
    {
        if joint_names[i] == target {
            proof {
                let found = choose|f: usize|
                    f < joint_names@.len() && joint_names@[f as int]@ == target@ && forall|k: int|
                        0 <= k < f ==> joint_names@[k]@ != target@;
                if found < i {
                    assert(joint_names@[found as int]@ != target@);
                } else if i < found {
                    assert(joint_names@[i as int]@ != target@);
                }
            }
            return Some(i);
        }
        i += 1;
    }
    None
}

/// The place that the animation takes among the joints: see `joint_key_of`.
pub fn joint_key(joint_names: &[String], animation: &JointAnimation) -> (r: usize)
    ensures
        r == joint_key_of(joint_names@, *animation),
{
    match get_joint_index(joint_names, animation) {
        Some(index) => index,
        None => 0,
    }
}

/// The animations sorted by the joints that they drive, those of one joint
/// in the order that they had. Fails where there are at least two
/// animations and one of them drives no joint of the skeleton.
pub fn reorder_animations(animations: Vec<JointAnimation>, joint_names: &[String]) -> (r: Result<
    Vec<JointAnimation>,
    AnimationLoadError,
>)
    ensures
        r is Err <==> animations@.len() >= 2 && exists|i: int|
            0 <= i < animations@.len() && joint_index_of(
                joint_names@,
                (#[trigger] animations@[i]).target@,
            ) is None,
        r matches Ok(sorted) ==> {
            &&& sorted@.len() == animations@.len()
            &&& forall|i: int, j: int|
                0 <= i < j < sorted@.len() ==> joint_key_of(joint_names@, sorted@[i])
                    <= joint_key_of(joint_names@, sorted@[j])
            &&& forall|key: usize|
                with_key(sorted@, joint_names@, key) == with_key(animations@, joint_names@, key)
        },
{
    let ghost given = animations@;
    let mut animations = animations;
    let mut failed = false;
    let mut i: usize = 0;
    while i < animations.len()
        invariant
            animations@ == given,
            i <= animations@.len(),
            failed <==> exists|k: int|
                0 <= k < i && joint_index_of(joint_names@, (#[trigger] animations@[k]).target@) is None,
        decreases animations@.len() - i,
    {
        if get_joint_index(joint_names, &animations[i]).is_none() {
            failed = true;
        }
        i += 1;
    }
    if failed && animations.len() >= 2 {
        return Err(AnimationLoadError);
    }
    sort_by_joint(&mut animations, joint_names);
    Ok(animations)
}

/// Whether all animations have the sample times of the first.
pub fn animations_same_sample_times(animations: &[JointAnimation]) -> (r: bool)
    ensures
        r == forall|i: int|
            0 <= i < animations@.len() ==> (#[trigger] animations@[i]).sample_times@
                == animations@[0].sample_times@,
{
    if animations.len() == 0 {
        return true;
    }
    let first_times = &animations[0].sample_times;
    let mut i: usize = 1;
    while i < animations.len()
        invariant
            1 <= i <= animations@.len(),
            *first_times == animations@[0].sample_times,
            forall|k: int|
                0 <= k < i ==> (#[trigger] animations@[k]).sample_times@ == first_times@,
        decreases animations@.len() - i,
    {
        if !same_times(&animations[i].sample_times, first_times) {
            return false;
        }
        i += 1;
    }
    true
}

/// For each of `keyframes` frames, the poses of the matrices that the
/// animations have for it, one slot for each animation.
pub open spec fn animation_frames(animations: Seq<JointAnimation>, keyframes: nat) -> Seq<Seq<Pose>> {
    Seq::new(
        keyframes,
        |frame: int|
            Seq::new(
                animations.len(),
                |j: int| Pose::of_matrix(animations[j].sample_poses@[frame]),
            ),
    )
}

/// The animations share their sample times.
pub open spec fn share_times(animations: Seq<JointAnimation>) -> bool {
    forall|i: int|
        0 <= i < animations.len() ==> (#[trigger] animations[i]).sample_times@
            == animations[0].sample_times@
}

/// The clip of the animations of the joints of a skeleton of `bones` joints,
/// one animation for each joint, in the order of the joints: one pose slot
/// for each joint, one frame for each sample time, the first at time zero.
///
/// Fails where the animations are not as many as the joints, or do not all
/// have the same sample times.
pub fn load_animation(animations: Vec<JointAnimation>, bones: usize) -> (r: Result<
    Animation,
    AnimationLoadError,
>)
    requires
        animations@.len() > 0 || bones != 0,
        animations@.len() == bones && share_times(animations@) ==> rising(
            animations@[0].sample_times@,
        ) && forall|j: int|
            0 <= j < animations@.len() ==> (#[trigger] animations@[j]).sample_poses@.len()
                >= animations@[0].sample_times@.len(),
    ensures
        r is Err <==> animations@.len() != bones || !share_times(animations@),
        r matches Ok(clip) ==> ({
            let times = animations@[0].sample_times@;
            &&& clip.well_formed()
            &&& clip.bones == bones
            &&& clip.keyframes == times.len()
            &&& clip.times@ == frame_times(times)
            &&& clip.poses@ == joined(animation_frames(animations@, times.len()))
            &&& clip.targets is None
        }),
{
    if animations.len() != bones {
        return Err(AnimationLoadError);
    }
    if !animations_same_sample_times(animations.as_slice()) {
        return Err(AnimationLoadError);
    }
    let times = &animations[0].sample_times;
    let frames = times.len();
    let mut output = Animation::new(bones, None);
    let ghost all = animation_frames(animations@, frames as nat);
    let mut i: usize = 0;
    assert(all.take(0) =~= Seq::<Seq<Pose>>::empty());
    while i < frames
        invariant
            animations@.len() == bones,
            bones > 0,
            share_times(animations@),
            rising(animations@[0].sample_times@),
            forall|j: int|
                0 <= j < animations@.len() ==> (#[trigger] animations@[j]).sample_poses@.len()
                    >= animations@[0].sample_times@.len(),
            *times == animations@[0].sample_times,
            frames == times@.len(),
            all == animation_frames(animations@, frames as nat),
            i <= frames,
            output.well_formed(),
            output.bones == bones,
            output.targets is None,
            output.keyframes == i,
            output.times@ == frame_times(times@).take(i as int),
            output.poses@ == joined(all.take(i as int)),
        decreases frames - i,
    {
        let mut keyframe: Vec<Pose> = Vec::new();
        let mut j: usize = 0;
        while j < bones
            invariant
                animations@.len() == bones,
                forall|j: int|
                    0 <= j < animations@.len() ==> (#[trigger] animations@[j]).sample_poses@.len()
                        >= animations@[0].sample_times@.len(),
                *times == animations@[0].sample_times,
                frames == times@.len(),
                i < frames,
                j <= bones,
                keyframe@.len() == j,
                forall|k: int|
                    0 <= k < j ==> keyframe@[k] == Pose::of_matrix(
                        animations@[k].sample_poses@[i as int],
                    ),
            decreases bones - j,
        {
            assert(animations@[j as int].sample_poses@.len() >= frames);
            keyframe.push(Pose::from_matrix(&animations[j].sample_poses[i]));
            j += 1;
        }
        proof {
            assert(keyframe@ =~= all[i as int]);
            assert(all.take(i + 1).drop_last() =~= all.take(i as int));
            assert(all.take(i + 1).last() == all[i as int]);
            if i > 0 {
                assert(output.times@.last() == frame_times(times@)[i - 1]);
            }
        }
        output.add_frame(keyframe.as_slice(), times[i]);
        i += 1;
        assert(output.times@ =~= frame_times(times@).take(i as int));
    }
    assert(all.take(i as int) =~= all);
    assert(frame_times(times@).take(i as int) =~= frame_times(times@));
    Ok(output)
}

} // verus!
