use nalgebra_glm as glm;
use skeletal_animation::animation::traits::AnimationTarget;
use skeletal_animation::pose::Pose;
use skeletal_animation::skeleton::bone::Bone;
use skeletal_animation::skeleton::error::{MissingFinalPose, MissingInvBindpose, MissingPose};
use skeletal_animation::skeleton::{is_valid_tree, Skeleton};

fn close_pose(a: &Pose, b: &Pose) -> bool {
    let close = |x: f32, y: f32| (x - y).abs() <= 1.0e-4;
    (0..3).all(|i| close(a.translation[i], b.translation[i]) && close(a.scale[i], b.scale[i]))
        && (0..4).all(|i| close(a.rotation.coords[i], b.rotation.coords[i]))
}

fn joint(x: f32, y: f32, z: f32, angle: f32) -> Pose {
    Pose::without_scale(glm::vec3(x, y, z), glm::quat_angle_axis(angle, &glm::vec3(0.0, 0.0, 1.0)))
}

// A small rig whose bones are not listed parent first:
//   3 is the root, 1 and 4 hang on it, 0 hangs on 1, 2 on 0, 5 is a root of its own.
fn rig() -> (Vec<Option<usize>>, Vec<Pose>) {
    let tree = vec![Some(1), Some(3), Some(0), None, Some(3), None];
    let poses = vec![
        joint(1.0, 0.0, 0.0, 0.3),
        joint(0.0, 2.0, 0.0, -0.5),
        joint(0.0, 0.0, 3.0, 1.2),
        joint(5.0, 5.0, 5.0, 0.8),
        joint(-1.0, 1.0, 0.0, 2.0),
        joint(9.0, 0.0, 0.0, 0.0),
    ];
    (tree, poses)
}

fn expected_world(tree: &[Option<usize>], poses: &[Pose], bone: usize) -> Pose {
    match tree[bone] {
        Some(parent) => expected_world(tree, poses, parent) * poses[bone],
        None => poses[bone],
    }
}

#[test]
fn tree_validity_is_checked() {
    assert!(is_valid_tree(&vec![]));
    assert!(is_valid_tree(&vec![None]));
    assert!(is_valid_tree(&rig().0));
    assert!(is_valid_tree(&vec![Some(1), Some(2), Some(3), None]));
    // A bone that is its own parent, a longer cycle, and a parent that is no bone.
    assert!(!is_valid_tree(&vec![Some(0)]));
    assert!(!is_valid_tree(&vec![None, Some(2), Some(3), Some(1)]));
    assert!(!is_valid_tree(&vec![None, Some(2)]));
    assert!(!is_valid_tree(&vec![Some(1), Some(0), None]));
}

#[test]
fn a_new_skeleton_has_nothing_cached() {
    let (tree, poses) = rig();
    let skeleton = Skeleton::from_tree_pose(tree.clone(), poses.clone());
    assert_eq!(skeleton.bone_count(), 6);
    assert_eq!(skeleton.tree_ref(), tree.as_slice());
    assert_eq!(skeleton.pose_ref().len(), 6);
    assert!(skeleton.world_pose_ref().iter().all(|pose| pose.is_none()));
    assert!(skeleton.joint_world_pose(0).is_none());
    assert!(skeleton.joint_world_pose(6).is_none());
    assert_eq!(skeleton.joint_pose(2).unwrap().translation, poses[2].translation);
    assert!(skeleton.joint_pose(6).is_none());
    assert_eq!(skeleton.get_root_id(), Some(3));
    assert!(!skeleton.contains_one_root());
    assert!(skeleton.is_well_formed());
}

#[test]
fn roots_are_counted() {
    let one = Skeleton::from_tree_pose(vec![Some(1), None], vec![Pose::pose_identity(); 2]);
    assert!(one.contains_one_root());
    assert_eq!(one.get_root_id(), Some(1));
    let none = Skeleton::from_tree_pose(vec![], vec![]);
    assert!(none.contains_one_root());
    assert_eq!(none.get_root_id(), None);
}

#[test]
fn world_pose_composes_down_from_the_root() {
    let (tree, poses) = rig();
    let mut skeleton = Skeleton::from_tree_pose(tree.clone(), poses.clone());
    let built = skeleton.build_joint_world_pose(2).unwrap();
    let expected = poses[3] * poses[1] * poses[0] * poses[2];
    assert!(close_pose(&built, &expected));
    // The bone and its ancestors are cached, the others are not.
    for bone in [2, 0, 1, 3] {
        let cached = skeleton.joint_world_pose(bone).unwrap();
        assert!(close_pose(&cached, &expected_world(&tree, &poses, bone)));
    }
    assert!(skeleton.joint_world_pose(4).is_none());
    assert!(skeleton.joint_world_pose(5).is_none());
    assert!(skeleton.build_joint_world_pose(6).is_none());
}

#[test]
fn build_order_does_not_change_the_world_poses() {
    let (tree, poses) = rig();
    let orders: [[usize; 6]; 4] =
        [[3, 5, 1, 4, 0, 2], [0, 1, 2, 3, 4, 5], [5, 4, 3, 2, 1, 0], [2, 4, 5, 0, 3, 1]];
    let mut reference = Skeleton::from_tree_pose(tree.clone(), poses.clone());
    reference.build_world_poses();
    for order in orders {
        let mut skeleton = Skeleton::from_tree_pose(tree.clone(), poses.clone());
        for bone in order {
            skeleton.build_joint_world_pose(bone);
        }
        for bone in 0..6 {
            let built = skeleton.joint_world_pose(bone).unwrap();
            let parent_first = reference.joint_world_pose(bone).unwrap();
            assert_eq!(built.translation, parent_first.translation);
            assert_eq!(built.rotation, parent_first.rotation);
            assert_eq!(built.scale, parent_first.scale);
            assert!(close_pose(&built, &expected_world(&tree, &poses, bone)));
        }
    }
}

#[test]
fn cached_world_poses_are_kept_until_reset() {
    let (tree, poses) = rig();
    let mut skeleton = Skeleton::from_tree_pose(tree, poses.clone());
    skeleton.build_world_poses();
    let before = skeleton.joint_world_pose(0).unwrap();
    *skeleton.joint_pose_mut(1).unwrap() = joint(0.0, 7.0, 0.0, 0.0);
    assert!(skeleton.joint_pose_mut(6).is_none());
    // What is cached is handed out as it is.
    let kept = skeleton.build_joint_world_pose(0).unwrap();
    assert_eq!(kept.translation, before.translation);
    skeleton.reset_world_poses();
    assert!(skeleton.world_pose_ref().iter().all(|pose| pose.is_none()));
    let rebuilt = skeleton.build_joint_world_pose(0).unwrap();
    let expected = poses[3] * joint(0.0, 7.0, 0.0, 0.0) * poses[0];
    assert!(close_pose(&rebuilt, &expected));

    skeleton.pose_ref_mut()[3] = Pose::pose_identity();
    skeleton.build_world_poses();
    let moved = skeleton.joint_world_pose(1).unwrap();
    assert!(close_pose(&moved, &joint(0.0, 7.0, 0.0, 0.0)));
}

#[test]
fn inverse_bind_pose_undoes_the_world_pose() {
    let (tree, poses) = rig();
    let mut skeleton = Skeleton::from_tree_pose(tree.clone(), poses.clone());
    let built = skeleton.joint_inv_bind_pose(0).unwrap();
    let expected = poses[0].inverse() * (poses[1].inverse() * poses[3].inverse());
    assert!(close_pose(&built, &expected));
    assert!(skeleton.joint_inv_bind_pose(6).is_none());

    skeleton.build_inv_bind_poses();
    skeleton.build_world_poses();
    for (bone, output) in skeleton.output_poses().into_iter().enumerate() {
        let output = output.unwrap();
        assert!(close_pose(&output, &Pose::pose_identity()), "bone {}", bone);
    }
    for matrix in skeleton.output_matrices() {
        let matrix = matrix.unwrap();
        for row in 0..4 {
            for col in 0..4 {
                let expected = if row == col { 1.0 } else { 0.0 };
                assert!((matrix[(row, col)] - expected).abs() <= 1.0e-4);
            }
        }
    }
}

#[test]
fn output_names_the_missing_pose() {
    let (tree, poses) = rig();
    let mut skeleton = Skeleton::from_tree_pose(tree, poses);
    let outputs = skeleton.output_poses();
    assert_eq!(outputs.len(), 6);
    assert!(outputs.iter().all(|o| matches!(o, Err(MissingPose::Final(MissingFinalPose)))));

    skeleton.build_joint_world_pose(1);
    let outputs = skeleton.output_poses();
    assert!(matches!(outputs[1], Err(MissingPose::InvBind(MissingInvBindpose))));
    assert!(matches!(outputs[3], Err(MissingPose::InvBind(MissingInvBindpose))));
    assert!(matches!(outputs[0], Err(MissingPose::Final(MissingFinalPose))));

    skeleton.joint_inv_bind_pose(3);
    let outputs = skeleton.output_poses();
    assert!(outputs[3].is_ok());
    assert!(matches!(outputs[1], Err(MissingPose::InvBind(MissingInvBindpose))));
    assert!(matches!(skeleton.output_matrices()[0], Err(MissingPose::Final(MissingFinalPose))));
    skeleton.reset_inv_bind_poses();
    assert!(skeleton.output_poses().iter().all(|o| o.is_err()));
    assert_eq!(MissingFinalPose.message(), "Missing final pose");
    assert_eq!(MissingInvBindpose.message(), "Missing inverse bind pose matrix");
}

#[test]
fn world_poses_are_mapped_in_bone_order() {
    let (tree, poses) = rig();
    let mut skeleton = Skeleton::from_tree_pose(tree, poses.clone());
    skeleton.build_joint_world_pose(3);
    skeleton.build_joint_world_pose(5);
    let built = skeleton.map_world_poses(|pose| pose.is_some());
    assert_eq!(built, vec![false, false, false, true, false, true]);
    let matrices = skeleton.world_poses_to_matrices();
    assert!(matrices[0].is_none());
    assert_eq!(matrices[5].unwrap(), poses[5].matrix());
}

#[test]
fn inverse_bind_poses_can_be_given() {
    let (tree, poses) = rig();
    let mut skeleton = Skeleton::from_tree_pose(tree, poses.clone());
    let few = vec![joint(1.0, 1.0, 1.0, 0.0); 4];
    assert!(skeleton.set_inv_bind_pose_iter(&few).is_err());
    skeleton.build_world_poses();
    let outputs = skeleton.output_poses();
    assert!(outputs[..4].iter().all(|o| o.is_ok()));
    assert!(outputs[4..].iter().all(|o| matches!(o, Err(MissingPose::InvBind(_)))));

    let enough = vec![Pose::pose_identity(); 7];
    assert!(skeleton.set_inv_bind_pose_iter(&enough).is_ok());
    let outputs = skeleton.output_poses();
    for bone in 0..6 {
        let world = skeleton.joint_world_pose(bone).unwrap();
        assert!(close_pose(outputs[bone].as_ref().unwrap(), &world));
    }
}

#[test]
fn local_poses_can_be_taken_from_world_poses() {
    let (tree, poses) = rig();
    let mut skeleton = Skeleton::from_tree_pose(tree.clone(), poses.clone());
    assert!(skeleton.poses_from_world_poses().is_err());
    skeleton.build_world_poses();
    for bone in 0..6 {
        *skeleton.joint_pose_mut(bone).unwrap() = Pose::pose_identity();
    }
    assert!(skeleton.poses_from_world_poses().is_ok());
    for bone in 0..6 {
        assert!(close_pose(&skeleton.joint_pose(bone).unwrap(), &poses[bone]), "bone {}", bone);
    }

    // Bone 0 has a world pose but its parent has none: bone 0 stops the pass.
    let mut partial = Skeleton::from_tree_pose(vec![None, Some(2), None], vec![joint(1.0, 0.0, 0.0, 0.0); 3]);
    partial.build_joint_world_pose(0);
    *partial.joint_pose_mut(0).unwrap() = Pose::pose_identity();
    assert!(partial.poses_from_world_poses().is_err());
    assert!(close_pose(&partial.joint_pose(0).unwrap(), &joint(1.0, 0.0, 0.0, 0.0)));
}

#[test]
fn bones_build_their_poses_through_the_list() {
    let (tree, poses) = rig();
    let mut bones: Vec<Bone> =
        tree.iter().zip(poses.iter()).map(|(parent, pose)| Bone::new(*pose, *parent)).collect();
    assert!(bones[3].is_root());
    assert!(!bones[2].is_root());
    assert!(bones[2].get_inv_pose().is_none());
    assert!(bones[2].get_relative_pose().is_none());

    let mut leaf = bones[2];
    let world = leaf.build_pose(&mut bones);
    assert!(close_pose(&world, &expected_world(&tree, &poses, 2)));
    assert!(close_pose(&leaf.final_pose.unwrap(), &world));
    // The ancestors are cached in the list; the bone itself was a copy.
    for bone in [0, 1, 3] {
        assert!(close_pose(&bones[bone].final_pose.unwrap(), &expected_world(&tree, &poses, bone)));
    }
    assert!(bones[2].final_pose.is_none());
    assert!(bones[4].final_pose.is_none());

    let inverse = leaf.build_inv_pose(&mut bones);
    let expected = poses[2].inverse() * (poses[0].inverse() * (poses[1].inverse() * poses[3].inverse()));
    assert!(close_pose(&inverse, &expected));
    assert!(bones[0].inv_pose.is_some() && bones[1].inv_pose.is_some());
    assert!(close_pose(&leaf.get_relative_pose().unwrap(), &Pose::pose_identity()));

    let base = joint(1.0, 0.0, 0.0, 0.0);
    assert!(leaf.set_base_pose(base).is_ok());
    assert!(close_pose(&leaf.final_pose.unwrap(), &(base * world)));
    leaf.reset();
    assert!(leaf.final_pose.is_none());
    assert!(leaf.set_base_pose(base).is_err());

    let given = Bone::with_inv_pose(poses[0], poses[1], Some(7));
    assert!(given.final_pose.is_none());
    assert!(close_pose(&given.get_inv_pose().unwrap(), &poses[1]));
    assert_eq!(given.parent, Some(7));
}

#[test]
fn bones_can_be_asked_whether_they_can_be_built() {
    let rest = Pose::pose_identity();
    let bones = vec![Bone::new(rest, Some(1)), Bone::new(rest, None)];
    assert!(Bone::new(rest, Some(0)).can_build(&bones));
    assert!(Bone::new(rest, None).can_build(&bones));
    assert!(!Bone::new(rest, Some(2)).can_build(&bones));
    let looped = vec![Bone::new(rest, Some(1)), Bone::new(rest, Some(0))];
    assert!(!Bone::new(rest, None).can_build(&looped));
    assert!(Bone::new(rest, None).can_build(&vec![]));
}

#[test]
fn bones_and_poses_are_targets() {
    let mut bone = Bone::new(joint(1.0, 0.0, 0.0, 0.0), None);
    bone.set_pose(joint(0.0, 1.0, 0.0, 0.0));
    assert!(close_pose(&bone.get_pose(), &joint(0.0, 1.0, 0.0, 0.0)));
    bone.add_pose(joint(1.0, 0.0, 0.0, 0.0));
    assert!(close_pose(&bone.get_pose(), &joint(1.0, 1.0, 0.0, 0.0)));
    bone.add_translation(glm::vec3(0.0, 0.0, 2.0));
    assert!(close_pose(&bone.get_pose(), &joint(1.0, 1.0, 2.0, 0.0)));
    bone.add_rotation(glm::quat_angle_axis(0.5, &glm::vec3(0.0, 0.0, 1.0)));
    assert!(close_pose(&bone.get_pose(), &joint(1.0, 1.0, 2.0, 0.5)));
    *bone.get_pose_mut() = Pose::pose_identity();
    assert!(close_pose(&bone.pose, &Pose::pose_identity()));

    let mut pose = joint(0.0, 1.0, 0.0, 0.0);
    let quarter = joint(0.0, 0.0, 0.0, std::f32::consts::FRAC_PI_2);
    pose.add_pose(quarter);
    assert!(close_pose(&pose, &joint(-1.0, 0.0, 0.0, std::f32::consts::FRAC_PI_2)));
    pose.set_pose(quarter);
    assert!(close_pose(&pose.get_pose(), &quarter));
}
