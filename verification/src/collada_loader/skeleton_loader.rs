//! A skeleton from the parents and the bind matrices of its joints.

use crate::collada_load::skeleton::{matrices_to_poses, poses_of_matrices};
use crate::pose::Pose;
use crate::skeleton::{valid_tree, Rig, Skeleton};
use nalgebra_glm::Mat4;
use vstd::prelude::*;

verus! {

/// The skeleton of the joints whose parents and bind matrices are given,
/// joint by joint, with the inverse bind pose of every joint built and no
/// world pose cached.
pub fn load_skeleton(parents: Vec<Option<usize>>, bind_poses: &[Mat4]) -> (r: Skeleton)
    requires
        parents@.len() == bind_poses@.len(),
        valid_tree(parents@),
    ensures
        r@.well_formed(),
        r@.tree == parents@,
        r@.pose == poses_of_matrices(bind_poses@),
        r@.world_pose == Seq::new(parents@.len(), |j: int| None::<Pose>),
        r@.inv_bind_pose == Seq::new(
            parents@.len(),
            |j: int| Some(r@.with_inv_bind_reset().inv_bind_of(j)),
        ),
{
    let poses = matrices_to_poses(bind_poses);
    let mut output = Skeleton::from_tree_pose(parents, poses);
    let ghost start = output@;
    output.build_inv_bind_poses();
    proof {
        assert(output@.with_inv_bind_reset() == start.with_inv_bind_reset());
        assert(output@.world_pose =~= Seq::new(parents@.len(), |j: int| None::<Pose>));
    }
    output
}

} // verus!
