//! A clip from the sampled matrices of the nodes of a skeleton.

use crate::animation::Animation;
use crate::pose::Pose;
use nalgebra_glm::Mat4;
use vstd::prelude::*;

verus! {

/// The nodes' samples cannot be made into one clip.
#[derive(Copy, Clone, Debug, PartialEq, Eq, Structural)]
pub struct AnimationLoadError;

impl AnimationLoadError {
    /// The error in words.
    pub fn message(&self) -> (r: String)
        ensures
            r@ == "failed to load animation"@,
    {
        "failed to load animation".to_string()
    }
}

/// The samples of one node: a matrix for each sample time.
pub struct NodeTrack {
    pub sample_times: Vec<i64>,
    pub transformations: Vec<Mat4>,
}

/// The indices of the nodes that have samples, in order.
pub open spec fn present(tracks: Seq<Option<NodeTrack>>) -> Seq<usize>
    decreases tracks.len(),
{
    if tracks.len() == 0 {
        Seq::empty()
    } else if tracks.last() is Some {
        present(tracks.drop_last()).push((tracks.len() - 1) as usize)
    } else {
        present(tracks.drop_last())
    }
}

/// All nodes that have samples have them at the same times.
pub open spec fn tracks_agree(tracks: Seq<Option<NodeTrack>>) -> bool {
    forall|a: int, b: int|
        0 <= a < tracks.len() && 0 <= b < tracks.len() && tracks[a] is Some && tracks[b] is Some
            ==> tracks[a]->0.sample_times@ == tracks[b]->0.sample_times@
}

/// The times that the frames of a clip get: the sample times, but zero for
/// the first.
pub open spec fn frame_times(times: Seq<i64>) -> Seq<i64> {
    Seq::new(
        times.len(),
        |k: int|
            if k == 0 {
                0i64
            } else {
                times[k]
            },
    )
}

/// Every frame after the first comes later than the one before it.
pub open spec fn rising(times: Seq<i64>) -> bool {
    forall|k: int| 1 <= k < times.len() ==> frame_times(times)[k - 1] < #[trigger] times[k]
}

/// The poses of a list of frames, frame after frame.
pub open spec fn joined(frames: Seq<Seq<Pose>>) -> Seq<Pose>
    decreases frames.len(),
{
    if frames.len() == 0 {
        Seq::empty()
    } else {
        joined(frames.drop_last()) + frames.last()
    }
}

/// For each of `keyframes` frames, the poses of the matrices that the nodes
/// of `slots` have for it.
pub open spec fn track_frames(
    tracks: Seq<Option<NodeTrack>>,
    slots: Seq<usize>,
    keyframes: nat,
) -> Seq<Seq<Pose>> {
    Seq::new(
        keyframes,
        |frame: int|
            Seq::new(
                slots.len(),
                |j: int| Pose::of_matrix(tracks[slots[j] as int]->0.transformations@[frame]),
            ),
    )
}

/// Where the nodes agree on their sample times, the times rise and every
/// node has a matrix for each of them.
pub open spec fn loadable(tracks: Seq<Option<NodeTrack>>) -> bool {
    tracks_agree(tracks) ==> forall|k: int|
        0 <= k < tracks.len() ==> (#[trigger] tracks[k] matches Some(track) ==> rising(
            track.sample_times@,
        ) && track.transformations@.len() >= track.sample_times@.len())
}

/// The nodes listed by `present` have samples.
pub proof fn lemma_present_have_samples(tracks: Seq<Option<NodeTrack>>)
    requires
        tracks.len() <= usize::MAX,
    ensures
        forall|j: int|
            0 <= j < present(tracks).len() ==> (#[trigger] present(tracks)[j]) < tracks.len()
                && tracks[present(tracks)[j] as int] is Some,
        present(tracks).len() == 0 ==> forall|k: int| 0 <= k < tracks.len() ==> tracks[k] is None,
    decreases tracks.len(),
{
    if tracks.len() > 0 {
        lemma_present_have_samples(tracks.drop_last());
        assert forall|k: int| 0 <= k < tracks.len() && present(tracks).len() == 0 implies tracks[k] is None by {
            if k < tracks.len() - 1 {
                assert(tracks.drop_last()[k] is None);
            }
        }
        assert forall|j: int| 0 <= j < present(tracks).len() implies (#[trigger] present(
            tracks,
        )[j]) < tracks.len() && tracks[present(tracks)[j] as int] is Some by {
            if j < present(tracks.drop_last()).len() {
                let at = present(tracks.drop_last())[j];
                assert(tracks.drop_last()[at as int] is Some);
            }
        }
    }
}

/// Whether every frame after the first comes later than the one before it,
/// the first taken to be at time zero.
pub fn frame_times_rise(times: &Vec<i64>) -> (r: bool)
    ensures
        r == rising(times@),
{
    let mut k: usize = 1;
    while k < times.len()
        invariant
            1 <= k,
            forall|j: int| 1 <= j < k && j < times@.len() ==> frame_times(times@)[j - 1] < #[trigger] times@[j],
        decreases times@.len() - k,
    {
        let before = if k == 1 {
            0
        } else {
            times[k - 1]
        };
        if before >= times[k] {
            return false;
        }
        k += 1;
    }
    true
}

/// Whether two lists of sample times are the same.
pub(crate) fn same_times(a: &Vec<i64>, b: &Vec<i64>) -> (r: bool)
    ensures
        r == (a@ == b@),
{
    if a.len() != b.len() {
        return false;
    }
    let mut i: usize = 0;
    while i < a.len()
        invariant
            a@.len() == b@.len(),
            i <= a@.len(),
            forall|k: int| 0 <= k < i ==> a@[k] == b@[k],
        decreases a@.len() - i,
    {
        if a[i] != b[i] {
            return false;
        }
        i += 1;
    }
    assert(a@ =~= b@);
    true
}

/// The clip of the nodes that have samples: one pose slot for each of them,
/// one frame for each sample time, the first frame at time zero. The slots
/// drive the nodes in order; they are listed unless every node has samples.
///
/// Fails where no node has samples, or where two nodes have samples at
/// different times.
pub fn load_animation(tracks: &[Option<NodeTrack>]) -> (r: Result<Animation, AnimationLoadError>)
    requires
        loadable(tracks@),
    ensures
        r is Err <==> !tracks_agree(tracks@) || present(tracks@).len() == 0,
        r matches Ok(clip) ==> ({
            let slots = present(tracks@);
            let times = tracks@[slots[0] as int]->0.sample_times@;
            &&& clip.well_formed()
            &&& clip.bones == slots.len()
            &&& clip.keyframes == times.len()
            &&& clip.times@ == frame_times(times)
            &&& clip.poses@ == joined(track_frames(tracks@, slots, times.len()))
            &&& match clip.targets {
                Some(listed) => slots.len() != tracks@.len() && listed@ == slots,
                None => slots.len() == tracks@.len(),
            }
        }),
{
    let mut targets: Vec<usize> = Vec::new();
    let mut first: Option<usize> = None;
    let mut i: usize = 0;
    assert(tracks@.take(0) =~= Seq::<Option<NodeTrack>>::empty());
    while i < tracks.len()
        invariant
            i <= tracks@.len(),
            targets@ == present(tracks@.take(i as int)),
            first is None <==> targets@.len() == 0,
            first matches Some(f) ==> f < i && tracks@[f as int] is Some && targets@[0] == f
                && forall|k: int|
                0 <= k < i && tracks@[k] is Some ==> tracks@[k]->0.sample_times@
                    == tracks@[f as int]->0.sample_times@,
            first is None ==> forall|k: int| 0 <= k < i ==> tracks@[k] is None,
        decreases tracks@.len() - i,
    {
        proof {
            assert(tracks@.take(i + 1).drop_last() =~= tracks@.take(i as int));
            assert(tracks@.take(i + 1).last() == tracks@[i as int]);
        }
        match &tracks[i] {
            Some(track) => {
                match first {
                    Some(f) => {
                        let known = tracks[f].as_ref().unwrap();
                        if !same_times(&track.sample_times, &known.sample_times) {
                            return Err(AnimationLoadError);
                        }
                    },
                    None => {
                        first = Some(i);
                    },
                }
                targets.push(i);
            },
            None => {},
        }
        i += 1;
    }
    assert(tracks@.take(i as int) =~= tracks@);
    let f = match first {
        Some(f) => f,
        None => {
            return Err(AnimationLoadError);
        },
    };
    proof {
        lemma_present_have_samples(tracks@);
        assert(tracks_agree(tracks@));
    }
    let times = &tracks[f].as_ref().unwrap().sample_times;
    let keyframes = times.len();
    let bones = targets.len();
    let mut animation = Animation::new(bones, None);
    let ghost frames = track_frames(tracks@, targets@, keyframes as nat);
    let mut frame: usize = 0;
    assert(frames.take(0) =~= Seq::<Seq<Pose>>::empty());
    while frame < keyframes
        invariant
            loadable(tracks@),
            tracks_agree(tracks@),
            f < tracks@.len(),
            tracks@[f as int] is Some,
            *times == tracks@[f as int]->0.sample_times,
            keyframes == times@.len(),
            bones == targets@.len(),
            targets@ == present(tracks@),
            forall|j: int|
                0 <= j < targets@.len() ==> (#[trigger] targets@[j]) < tracks@.len()
                    && tracks@[targets@[j] as int] is Some,
            frames == track_frames(tracks@, targets@, keyframes as nat),
            frame <= keyframes,
            animation.well_formed(),
            animation.bones == bones,
            animation.targets is None,
            animation.keyframes == frame,
            animation.times@ == frame_times(times@).take(frame as int),
            animation.poses@ == joined(frames.take(frame as int)),
        decreases keyframes - frame,
    {
        let mut poses: Vec<Pose> = Vec::new();
        let mut j: usize = 0;
        while j < bones
            invariant
                loadable(tracks@),
                tracks_agree(tracks@),
                f < tracks@.len(),
                tracks@[f as int] is Some,
                *times == tracks@[f as int]->0.sample_times,
                keyframes == times@.len(),
                frame < keyframes,
                bones == targets@.len(),
                forall|j: int|
                    0 <= j < targets@.len() ==> (#[trigger] targets@[j]) < tracks@.len()
                        && tracks@[targets@[j] as int] is Some,
                j <= bones,
                poses@.len() == j,
                forall|k: int|
                    0 <= k < j ==> poses@[k] == Pose::of_matrix(
                        tracks@[targets@[k] as int]->0.transformations@[frame as int],
                    ),
            decreases bones - j,
        {
            let slot = targets[j];
            assert(tracks@[slot as int] is Some);
            let track = tracks[slot].as_ref().unwrap();
            assert(track.sample_times@ == times@);
            poses.push(Pose::from_matrix(&track.transformations[frame]));
            j += 1;
        }
        proof {
            assert(poses@ =~= frames[frame as int]);
            assert(frames.take(frame + 1).drop_last() =~= frames.take(frame as int));
            assert(frames.take(frame + 1).last() == frames[frame as int]);
            if frame > 0 {
                assert(animation.times@.last() == frame_times(times@)[frame - 1]);
            }
        }
        animation.add_frame(poses.as_slice(), times[frame]);
        frame += 1;
        assert(animation.times@ =~= frame_times(times@).take(frame as int));
    }
    assert(frames.take(frame as int) =~= frames);
    assert(frame_times(times@).take(frame as int) =~= frame_times(times@));
    if bones != tracks.len() {
        animation.targets = Some(targets);
    }
    Ok(animation)
}

} // verus!
