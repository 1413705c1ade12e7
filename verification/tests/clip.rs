use nalgebra_glm as glm;
use skeletal_animation::animation::animator::{Animator, MissingFrameError};
use skeletal_animation::animation::controller::{
    AnimationInstance, Controller, InstanceType, MissingAnimationError, PoseUpdateError,
};
use skeletal_animation::animation::library::AniLibrary;
use skeletal_animation::animation::traits::{
    Animation as Clip, AnimationLibrary, AnimationTarget, Targets,
};
use skeletal_animation::animation::Animation;
use skeletal_animation::pose::{Factor, Pose};
use skeletal_animation::skeleton::bone::Bone;

fn close(a: f32, b: f32) -> bool {
    (a - b).abs() <= 1.0e-4
}

fn close_pose(a: &Pose, b: &Pose) -> bool {
    (0..3).all(|i| close(a.translation[i], b.translation[i]) && close(a.scale[i], b.scale[i]))
        && (0..4).all(|i| close(a.rotation.coords[i], b.rotation.coords[i]))
}

fn at(x: f32, angle: f32) -> Pose {
    Pose::without_scale(glm::vec3(x, 0.0, 0.0), glm::quat_angle_axis(angle, &glm::vec3(0.0, 0.0, 1.0)))
}

// Two slots over three frames at 0, 1000 and 3000 ticks.
fn two_slot_clip(targets: Option<Vec<usize>>) -> Animation {
    let mut clip = Animation::new(2, targets);
    clip.add_frame(&[at(0.0, 0.0), at(10.0, 0.0)], 500);
    clip.add_frame(&[at(1.0, 1.0), at(20.0, 0.0)], 1000);
    clip.add_frame(&[at(5.0, 0.0), at(0.0, 0.0)], 3000);
    clip
}

struct AnimationTest {
    sample_times: Vec<i64>,
    poses: Vec<Pose>,
}

impl Clip for AnimationTest {
    fn frames(&self) -> usize {
        self.sample_times.len()
    }

    fn sample_times(&self) -> &[i64] {
        self.sample_times.as_slice()
    }

    fn get_frame(&self, frame: usize) -> Option<(&[Pose], i64)> {
        if frame < self.sample_times.len() {
            Some((&self.poses[frame..frame + 1], self.sample_times[frame]))
        } else {
            None
        }
    }

    fn get_targets<'a>(&'a self) -> Targets<'a> {
        Targets::InOrder
    }
}

#[test]
fn frames_are_appended_in_time_order() {
    let clip = two_slot_clip(None);
    assert_eq!(clip.keyframes, 3);
    assert_eq!(clip.bones, 2);
    // The first frame is put at time zero.
    assert_eq!(clip.times, vec![0, 1000, 3000]);
    assert_eq!(clip.poses.len(), 6);
    assert!(clip.is_well_formed());
    let (poses, time) = clip.get_frame_and_time(1);
    assert_eq!(time, 1000);
    assert_eq!(poses.len(), 2);
    assert!(close_pose(&poses[0], &at(1.0, 1.0)));
    assert!(close_pose(&poses[1], &at(20.0, 0.0)));
    assert_eq!(clip.next_frame_time(0), Some(1000));
    assert_eq!(clip.next_frame_time(1), Some(3000));
    assert_eq!(clip.next_frame_time(2), None);
    assert_eq!(clip.next_frame_time(usize::MAX), None);
}

#[test]
fn a_clip_answers_as_an_animation() {
    let clip = two_slot_clip(Some(vec![4, 2]));
    assert_eq!(clip.sample_times(), &[0, 1000, 3000]);
    assert_eq!(clip.frames(), 3);
    assert_eq!(clip.duration(), Some(3000));
    assert!(clip.get_frame(3).is_none());
    assert!(clip.get_frame(usize::MAX).is_none());
    let (poses, time) = clip.get_frame(2).unwrap();
    assert_eq!(time, 3000);
    assert!(close_pose(&poses[0], &at(5.0, 0.0)));
    assert_eq!(clip.first_frame().unwrap().1, 0);
    assert_eq!(clip.last_frame().unwrap().1, 3000);
    assert!(matches!(clip.get_targets(), Targets::Specified(listed) if listed == [4, 2]));
    assert!(matches!(two_slot_clip(None).get_targets(), Targets::InOrder));

    let empty = Animation::with_capacity(2, 8, None);
    assert_eq!(empty.frames(), 0);
    assert_eq!(empty.duration(), None);
    assert!(empty.first_frame().is_none());
    assert!(empty.last_frame().is_none());
    assert!(empty.is_well_formed());
}

#[test]
fn a_clip_whose_counts_disagree_is_not_well_formed() {
    let mut clip = two_slot_clip(None);
    clip.keyframes = 4;
    assert!(!clip.is_well_formed());
    assert!(clip.get_frame(3).is_none());
    let mut clip = two_slot_clip(None);
    clip.poses.pop();
    assert!(!clip.is_well_formed());
    assert!(clip.get_frame(2).is_none());
    assert!(clip.get_frame(1).is_some());
    let mut clip = two_slot_clip(None);
    clip.times[2] = 1000;
    assert!(!clip.is_well_formed());
    let mut clip = two_slot_clip(None);
    clip.times[0] = 1;
    assert!(!clip.is_well_formed());
}

#[test]
fn bulk_clips_count_their_times_from_the_first() {
    let poses = vec![at(0.0, 0.0), at(1.0, 0.0), at(2.0, 0.0)];
    let clip = Animation::from_poses_and_times(1, &poses, &[250, 750, 2250], Some(vec![3]));
    assert_eq!(clip.times, vec![0, 500, 2000]);
    assert_eq!(clip.keyframes, 3);
    assert_eq!(clip.bones, 1);
    assert_eq!(clip.targets, Some(vec![3]));
    assert!(clip.is_well_formed());
    assert!(close_pose(&clip.get_frame(2).unwrap().0[0], &at(2.0, 0.0)));
}

#[test]
fn write_pose_blends_the_bracket_onto_the_targets() {
    let clip = two_slot_clip(None);
    let mut animator = Animator::new();
    animator.add_time(1500);
    animator.update_frames(clip.sample_times());
    assert_eq!((animator.current_frame(), animator.next_frame()), ((1, 1000), (2, 3000)));

    let mut targets = vec![Pose::pose_identity(); 2];
    assert!(animator.write_pose(&clip, &mut targets).is_ok());
    // A quarter of the way from frame 1 to frame 2.
    assert!(close_pose(&targets[0], &at(2.0, 0.75)));
    assert!(close_pose(&targets[1], &at(15.0, 0.0)));
}

#[test]
fn listed_targets_are_driven_and_others_left_alone() {
    let clip = two_slot_clip(Some(vec![3, 0]));
    let mut animator = Animator::new();
    animator.add_time(500);
    animator.update_frames(clip.sample_times());
    let mut targets = vec![at(-1.0, 0.0); 4];
    assert!(animator.write_pose(&clip, &mut targets).is_ok());
    assert!(close_pose(&targets[3], &at(0.5, 0.5)));
    assert!(close_pose(&targets[0], &at(15.0, 0.0)));
    assert!(close_pose(&targets[1], &at(-1.0, 0.0)));
    assert!(close_pose(&targets[2], &at(-1.0, 0.0)));
}

#[test]
fn the_four_rules_change_what_they_say() {
    let clip = two_slot_clip(None);
    let mut animator = Animator::new();
    animator.add_time(2000);
    animator.update_frames(clip.sample_times());
    let start = Pose {
        translation: glm::vec3(0.0, 1.0, 0.0),
        rotation: glm::quat_angle_axis(std::f32::consts::FRAC_PI_2, &glm::vec3(0.0, 0.0, 1.0)),
        scale: glm::vec3(2.0, 2.0, 2.0),
    };
    // Half way from frame 1 to frame 2, slot 0 is at x = 3, turned by a half.
    let sampled = at(3.0, 0.5);

    let mut targets = vec![start; 2];
    assert!(animator.add_pose(&clip, &mut targets).is_ok());
    assert!(close_pose(&targets[0], &(sampled * start)));

    let mut targets = vec![start; 2];
    assert!(animator.write_rotations(&clip, &mut targets).is_ok());
    assert!(close_pose(&targets[0], &Pose { rotation: sampled.rotation, ..start }));

    let mut targets = vec![start; 2];
    assert!(animator.add_rotations(&clip, &mut targets).is_ok());
    assert!(close_pose(&targets[0], &Pose { rotation: sampled.rotation * start.rotation, ..start }));

    let mut bones = vec![Bone::new(start, None), Bone::new(start, Some(0))];
    assert!(animator.write_pose(&clip, &mut bones).is_ok());
    assert!(close_pose(&bones[0].pose, &sampled));
    assert!(close_pose(&bones[1].pose, &at(10.0, 0.0)));
    assert_eq!(bones[1].parent, Some(0));
}

#[test]
fn manipulate_pose_hands_the_weight_to_the_function() {
    let clip = AnimationTest {
        sample_times: vec![0, 1000, 2000, 3000],
        poses: vec![at(0.0, 0.0), at(1.0, 0.0), at(2.0, 0.0), at(3.0, 0.0)],
    };
    let mut targets = vec![Pose::pose_identity()];
    let weight_as_x = |_a: Pose, _b: Pose, f: Factor, current: Pose| {
        Pose { translation: glm::vec3(f.num as f32, f.den as f32, 0.0), ..current }
    };

    let mut animator = Animator::new();
    animator.add_time(1250);
    animator.update_frames(clip.sample_times());
    assert!(animator.manipulate_pose(&clip, &mut targets, weight_as_x).is_ok());
    assert_eq!(targets[0].translation, glm::vec3(250.0, 1000.0, 0.0));

    // On the last frame a cursor that plays once holds it: the weight is zero.
    animator.add_time(5000);
    animator.update_frames(clip.sample_times());
    assert!(animator.manipulate_pose(&clip, &mut targets, weight_as_x).is_ok());
    assert_eq!(targets[0].translation, glm::vec3(0.0, 1.0, 0.0));

    // A looping cursor in the gap counts the time passed over the gap.
    let mut looping = Animator::new();
    looping.set_loop_time(2000);
    looping.add_time(3500);
    looping.update_frames(clip.sample_times());
    assert!(looping.manipulate_pose(&clip, &mut targets, weight_as_x).is_ok());
    assert_eq!(targets[0].translation, glm::vec3(500.0, 2000.0, 0.0));
    assert!(looping.write_pose(&clip, &mut targets).is_ok());
    assert!(close_pose(&targets[0], &at(2.25, 0.0)));
}

#[test]
fn a_frame_that_the_clip_lacks_is_an_error() {
    let long = AnimationTest {
        sample_times: vec![0, 1000, 2000, 3000],
        poses: vec![at(0.0, 0.0); 4],
    };
    let short = AnimationTest { sample_times: vec![0, 1000], poses: vec![at(7.0, 0.0); 2] };
    let none = AnimationTest { sample_times: vec![], poses: vec![] };
    let mut animator = Animator::new();
    animator.add_time(2500);
    animator.update_frames(long.sample_times());

    let mut targets = vec![at(-1.0, 0.0)];
    let missing = animator.write_pose(&short, &mut targets).unwrap_err();
    assert_eq!(missing, MissingFrameError::new(2));
    assert_eq!(missing.frame, 2);
    assert_eq!(missing.message(), "Animation missing 2 frame");
    assert!(close_pose(&targets[0], &at(-1.0, 0.0)));

    // The current frame is there, the next one is not.
    animator.time = 1500;
    animator.update_frames(long.sample_times());
    let missing = animator.add_pose(&short, &mut targets).unwrap_err();
    assert_eq!(missing.frame, 2);
    assert!(close_pose(&targets[0], &at(-1.0, 0.0)));

    // A clip without frames changes nothing and is no error.
    assert!(animator.write_pose(&none, &mut targets).is_ok());
    assert!(close_pose(&targets[0], &at(-1.0, 0.0)));
}

#[test]
fn what_can_be_played_can_be_asked() {
    let clip = two_slot_clip(Some(vec![3, 0]));
    let mut animator = Animator::new();
    animator.add_time(500);
    assert!(animator.can_play(clip.sample_times()));
    animator.update_frames(clip.sample_times());
    assert!(animator.fits(&clip, 4));
    assert!(!animator.fits(&clip, 3));
    assert!(animator.fits(&two_slot_clip(None), 2));
    assert!(animator.fits(&two_slot_clip(None), 0));
    assert!(!animator.fits(&two_slot_clip(None), 3));
    assert!(!animator.fits(&two_slot_clip(Some(vec![0, 1, 1])), 9));
    // A clip without frames, or without the frames of the bracket, asks nothing.
    assert!(animator.fits(&Animation::new(2, None), 7));
    let mut ahead = Animator::new();
    ahead.time = 7000;
    ahead.update_frames(&[0, 1000, 2000, 3000, 4000]);
    assert!(ahead.fits(&clip, 1));

    assert!(!animator.can_play(&[]));
    assert!(!animator.can_play(&[5, 6]));
    assert!(!animator.can_play(&[0, 6, 6]));
    animator.set_loop_time(-3000);
    assert!(!animator.can_play(clip.sample_times()));
    animator.set_loop_time(-2999);
    assert!(animator.can_play(clip.sample_times()));
    animator.set_loop_time(i64::MAX);
    assert!(!animator.can_play(clip.sample_times()));
    assert!(animator.can_play(&[0]));

    assert!(animator.can_add_time(i64::MAX - 500));
    assert!(!animator.can_add_time(i64::MAX - 499));
    animator.reverse();
    assert!(animator.can_add_time(i64::MAX));
    assert!(!animator.can_add_time(i64::MIN));

    let mut library = AniLibrary::new();
    library.add_animation(two_slot_clip(None));
    let mut controller = Controller::new();
    assert!(controller.can_add_time(i64::MAX));
    controller.add_instance(AnimationInstance::new(Animator::new(), 0, InstanceType::AllWrite));
    controller.add_instance(AnimationInstance::new(Animator::new(), 4, InstanceType::AllWrite));
    assert!(controller.can_update_animators(&library));
    assert!(controller.can_update_pose(&library, 2));
    assert!(!controller.can_update_pose(&library, 3));
    assert!(controller.can_add_time(i64::MAX));
    controller.add_time(1);
    assert!(!controller.can_add_time(i64::MAX));
    let mut looping = Animator::new();
    looping.set_loop_time(0);
    let instance = AnimationInstance::new(looping, 0, InstanceType::AllWrite);
    assert!(instance.can_update_frames(&library));
    assert!(instance.can_update_pose(&library, 1));
    library.add_animation(Animation::new(2, None));
    let empty = AnimationInstance::new(looping, 1, InstanceType::AllWrite);
    assert!(!empty.can_update_frames(&library));
}

#[test]
fn a_library_finds_clips_by_index() {
    let mut library = AniLibrary::new();
    assert!(library.get_animation(0).is_none());
    library.add_animation(two_slot_clip(None));
    library.add_animation(Animation::new(2, None));
    assert_eq!(library.get_animation(0).unwrap().keyframes, 3);
    assert_eq!(library.get_animation(1).unwrap().keyframes, 0);
    assert!(library.get_animation(2).is_none());
}

#[test]
fn a_controller_drives_its_instances_in_order() {
    let mut library = AniLibrary::new();
    library.add_animation(two_slot_clip(None));
    library.add_animation(two_slot_clip(Some(vec![1, 0])));

    let mut controller = Controller::new();
    controller.add_instance(AnimationInstance::new(Animator::new(), 0, InstanceType::AllWrite));
    let mut backward = Animator::new();
    backward.time = 2500;
    backward.reverse();
    controller.add_instance(AnimationInstance::new(backward, 1, InstanceType::AllAdd));

    controller.add_time(500);
    assert!(controller.update_animators(&library).is_ok());
    let mut targets = vec![Pose::pose_identity(); 2];
    assert!(controller.update_pose(&library, &mut targets).is_ok());
    // The first instance writes the clip at 500: slot 0 at x = 0.5, slot 1 at x = 15.
    // The second adds the clip at 2000, its slots swapped: slot 0 onto target 1.
    let first = [at(0.5, 0.5), at(15.0, 0.0)];
    let second = [at(3.0, 0.5), at(10.0, 0.0)];
    assert!(close_pose(&targets[1], &(second[0] * first[1])));
    assert!(close_pose(&targets[0], &(second[1] * first[0])));
}

#[test]
fn a_missing_clip_stops_the_controller() {
    let mut library = AniLibrary::new();
    library.add_animation(two_slot_clip(None));

    let mut controller = Controller::new();
    controller.add_instance(AnimationInstance::new(Animator::new(), 0, InstanceType::AllWrite));
    controller.add_instance(AnimationInstance::new(Animator::new(), 5, InstanceType::RotationAdd));
    controller.add_instance(AnimationInstance::new(Animator::new(), 0, InstanceType::RotationWrite));
    controller.add_time(1500);

    let missing = controller.update_animators(&library).unwrap_err();
    assert_eq!(missing, MissingAnimationError::new(5));
    assert_eq!(missing.animation, 5);
    assert_eq!(missing.message(), "Missing 5 animation");

    let mut targets = vec![Pose::pose_identity(); 2];
    let failed = controller.update_pose(&library, &mut targets).unwrap_err();
    assert_eq!(failed, PoseUpdateError::MissingAnimation(MissingAnimationError::new(5)));
    // The first instance, whose bracket was brought up, has been played.
    assert!(close_pose(&targets[0], &at(2.0, 0.75)));

    let mut instance = AnimationInstance::new(Animator::new(), 9, InstanceType::AllWrite);
    assert_eq!(instance.update_frames(&library).unwrap_err().animation, 9);
    assert!(matches!(
        instance.update_pose(&library, &mut targets),
        Err(PoseUpdateError::MissingAnimation(e)) if e.animation == 9
    ));
}

#[test]
fn a_missing_frame_stops_the_controller() {
    let mut library = AniLibrary::new();
    library.add_animation(AnimationTest { sample_times: vec![0, 1000], poses: vec![at(7.0, 0.0); 2] });
    let long = vec![0, 1000, 2000, 3000];
    let mut ahead = Animator::new();
    ahead.add_time(2500);
    ahead.update_frames(&long);
    let instance = AnimationInstance::new(ahead, 0, InstanceType::AllWrite);
    let mut targets = vec![at(-1.0, 0.0)];
    assert_eq!(
        instance.update_pose(&library, &mut targets),
        Err(PoseUpdateError::MissingFrame(MissingFrameError::new(2)))
    );
    let mut controller = Controller::new();
    controller.add_instance(instance);
    assert!(controller.update_pose(&library, &mut targets).is_err());
    assert!(close_pose(&targets[0], &at(-1.0, 0.0)));
    assert!(targets[0].get_pose().scale == glm::vec3(1.0, 1.0, 1.0));
}
