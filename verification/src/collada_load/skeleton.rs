//! A skeleton from the parents and the rest matrices of its nodes.

use crate::pose::Pose;
use crate::skeleton::error::MissingInvBindpose;
use crate::skeleton::{valid_tree, Rig, Skeleton};
use nalgebra_glm::Mat4;
use vstd::prelude::*;

verus! {

/// The poses of a list of matrices.
pub open spec fn poses_of_matrices(matrices: Seq<Mat4>) -> Seq<Pose> {
    Seq::new(matrices.len(), |i: int| Pose::of_matrix(matrices[i]))
}

/// The poses of a list of matrices, in order.
pub fn matrices_to_poses(matrices: &[Mat4]) -> (r: Vec<Pose>)
    ensures
        r@ == poses_of_matrices(matrices@),
{
    let mut poses: Vec<Pose> = Vec::new();
    let mut i: usize = 0;
    while i < matrices.len()
        invariant
            i <= matrices@.len(),
            poses@ == poses_of_matrices(matrices@).take(i as int),
        decreases matrices@.len() - i,
    {
        poses.push(Pose::from_matrix(&matrices[i]));
        i += 1;
        assert(poses@ =~= poses_of_matrices(matrices@).take(i as int));
    }
    assert(poses_of_matrices(matrices@).take(i as int) =~= poses_of_matrices(matrices@));
    poses
}

/// The skeleton of the nodes whose parents and rest matrices are given,
/// node by node, with nothing cached.
pub fn load_skeleton(parents: Vec<Option<usize>>, default_trans: &[Mat4]) -> (r: Skeleton)
    requires
        parents@.len() == default_trans@.len(),
        valid_tree(parents@),
    ensures
        r@.well_formed(),
        r@.tree == parents@,
        r@.pose == poses_of_matrices(default_trans@),
        r@ == r@.with_world_reset().with_inv_bind_reset(),
{
    let poses = matrices_to_poses(default_trans);
    Skeleton::from_tree_pose(parents, poses)
}

/// Gives the bones of the skeleton the poses of the matrices as their
/// inverse bind poses, bone by bone; fails, with the bones that it reached
/// changed, where there are fewer matrices than bones.
pub fn set_bind_poses_skeleton(skeleton: &mut Skeleton, bind_poses: &[Mat4]) -> (r: Result<
    (),
    MissingInvBindpose,
>)
    requires
        old(skeleton)@.well_formed(),
    ensures
        r is Ok <==> bind_poses@.len() >= old(skeleton)@.tree.len(),
        final(skeleton)@ == (Rig {
            inv_bind_pose: Seq::new(
                old(skeleton)@.tree.len(),
                |i: int|
                    if i < bind_poses@.len() {
                        Some(Pose::of_matrix(bind_poses@[i]))
                    } else {
                        old(skeleton)@.inv_bind_pose[i]
                    },
            ),
            ..old(skeleton)@
        }),
        final(skeleton)@.well_formed(),
{
    let poses = matrices_to_poses(bind_poses);
    let r = skeleton.set_inv_bind_pose_iter(poses.as_slice());
    assert(skeleton@.inv_bind_pose =~= Seq::new(
        old(skeleton)@.tree.len(),
        |i: int|
            if i < bind_poses@.len() {
                Some(Pose::of_matrix(bind_poses@[i]))
            } else {
                old(skeleton)@.inv_bind_pose[i]
            },
    ));
    r
}

} // verus!
