//! Bones that carry their own cached poses, kept in one list and linked to
//! their parents by index.

use crate::animation::traits::AnimationTarget;
use crate::pose::Pose;
pub use crate::skeleton::error::{MissingFinalPose, MissingInvBindpose};
use crate::skeleton::{
    filled, is_valid_tree, lemma_parent_rooted, lemma_steps_do_not_matter, rooted_within, valid_tree,
    value_of,
};
use vstd::prelude::*;

verus! {

/// A bone: its parent in the list that holds it, its local pose, and the two
/// poses that are built from those and kept.
#[derive(Copy, Clone, Debug)]
pub struct Bone {
    pub parent: Option<usize>,
    pub pose: Pose,
    pub final_pose: Option<Pose>,
    pub inv_pose: Option<Pose>,
}

/// The parents of the bones of a list.
pub open spec fn parents_of(bones: Seq<Bone>) -> Seq<Option<usize>> {
    Seq::new(bones.len(), |i: int| bones[i].parent)
}

/// The local poses of the bones of a list.
pub open spec fn poses_of(bones: Seq<Bone>) -> Seq<Pose> {
    Seq::new(bones.len(), |i: int| bones[i].pose)
}

/// What the bones of a list have cached in one of the two passes: their
/// inverse bind poses, or their world poses.
pub open spec fn cached_of(bones: Seq<Bone>, inverse: bool) -> Seq<Option<Pose>> {
    Seq::new(bones.len(), |i: int| bones[i].cached(inverse))
}

impl Bone {
    /// What the bone has cached in one of the two passes.
    pub open spec fn cached(self, inverse: bool) -> Option<Pose> {
        if inverse {
            self.inv_pose
        } else {
            self.final_pose
        }
    }

    /// The bone with `value` cached in one of the two passes.
    pub open spec fn with_cached(self, inverse: bool, value: Option<Pose>) -> Bone {
        if inverse {
            Bone { inv_pose: value, ..self }
        } else {
            Bone { final_pose: value, ..self }
        }
    }

    /// The bone can be built over `bones`: the parents in the list form a
    /// valid tree, and the bone's own parent is in the list.
    pub open spec fn fits(self, bones: Seq<Bone>) -> bool {
        &&& valid_tree(parents_of(bones))
        &&& self.parent matches Some(parent) ==> parent < bones.len()
    }

    /// The value of the bone in one of the two passes, over the list that
    /// holds its parent: what the bone has cached, else its own pose, or the
    /// inverse of it, joined to the value of its parent.
    pub open spec fn value_over(self, bones: Seq<Bone>, inverse: bool) -> Pose {
        match self.cached(inverse) {
            Some(value) => value,
            None => match self.parent {
                Some(parent) => crate::skeleton::joined(
                    value_of(
                        parents_of(bones),
                        poses_of(bones),
                        cached_of(bones, inverse),
                        inverse,
                        parent as int,
                    ),
                    crate::skeleton::local_of(self.pose, inverse),
                    inverse,
                ),
                None => crate::skeleton::local_of(self.pose, inverse),
            },
        }
    }

    /// The list after the bone has been built over it: where the bone had
    /// nothing cached, its parent and those of its ancestors that had
    /// nothing cached hold their values. Nothing else changes.
    pub open spec fn built_over(self, bones: Seq<Bone>, inverse: bool) -> Seq<Bone> {
        match (self.cached(inverse), self.parent) {
            (None, Some(parent)) => Seq::new(
                bones.len(),
                |i: int|
                    bones[i].with_cached(
                        inverse,
                        filled(
                            parents_of(bones),
                            poses_of(bones),
                            cached_of(bones, inverse),
                            inverse,
                            parent as int,
                        )[i],
                    ),
            ),
            _ => bones,
        }
    }

    /// Whether the bone can be built over `bones`: see `Bone::fits`.
    pub fn can_build(&self, bones: &Vec<Bone>) -> (r: bool)
        ensures
            r == self.fits(bones@),
    {
        let mut parents: Vec<Option<usize>> = Vec::new();
        let mut i: usize = 0;
        while i < bones.len()
            invariant
                i <= bones@.len(),
                parents@ == parents_of(bones@).take(i as int),
            decreases bones@.len() - i,
        {
            parents.push(bones[i].parent);
            i += 1;
            assert(parents@ =~= parents_of(bones@).take(i as int));
        }
        assert(parents_of(bones@).take(i as int) =~= parents_of(bones@));
        if !is_valid_tree(&parents) {
            return false;
        }
        match self.parent {
            Some(parent) => parent < bones.len(),
            None => true,
        }
    }

    pub fn new(pose: Pose, parent: Option<usize>) -> (r: Bone)
        ensures
            r == (Bone { parent, pose, final_pose: None, inv_pose: None }),
    {
        Bone { parent, pose, final_pose: None, inv_pose: None }
    }

    pub fn is_root(&self) -> (r: bool)
        ensures
            r == (self.parent is None),
    {
        match self.parent {
            Some(_) => false,
            None => true,
        }
    }

    pub fn with_inv_pose(pose: Pose, inv_pose: Pose, parent: Option<usize>) -> (r: Bone)
        ensures
            r == (Bone { parent, pose, final_pose: None, inv_pose: Some(inv_pose) }),
    {
        Bone { parent, pose, final_pose: None, inv_pose: Some(inv_pose) }
    }

    /// Forgets the world pose.
    pub fn reset(&mut self)
        ensures
            *final(self) == (Bone { final_pose: None, ..*old(self) }),
    {
        self.final_pose = None;
    }

    pub fn get_inv_pose(&self) -> (r: &Option<Pose>)
        ensures
            *r == self.inv_pose,
    {
        &self.inv_pose
    }

    /// The skinning pose: the world pose composed with the inverse bind
    /// pose, if the bone has both.
    pub fn get_relative_pose(&self) -> (r: Option<Pose>)
        ensures
            r == match (self.inv_pose, self.final_pose) {
                (Some(inv_pose), Some(final_pose)) => Some(final_pose.composed(inv_pose)),
                _ => None,
            },
    {
        let inv_pose = self.inv_pose?;
        let final_pose = self.final_pose?;
        Some(final_pose.compose(&inv_pose))
    }

    /// Puts `base` in front of the world pose, if the bone has one.
    pub fn set_base_pose(&mut self, base: Pose) -> (r: Result<(), MissingFinalPose>)
        ensures
            match old(self).final_pose {
                Some(pose) => r is Ok && *final(self) == (Bone {
                    final_pose: Some(base.composed(pose)),
                    ..*old(self)
                }),
                None => r is Err && *final(self) == *old(self),
            },
    {
        match self.final_pose {
            Some(pose) => {
                self.final_pose = Some(base.compose(&pose));
            },
            None => {
                return Err(MissingFinalPose);
            },
        }
        Ok(())
    }

    /// Builds the bone in one of the two passes, and with it those of its
    /// ancestors in `bones` that have nothing cached.
    fn build_in(&mut self, bones: &mut Vec<Bone>, inverse: bool, Ghost(steps): Ghost<nat>) -> (r:
        Pose)
        requires
            old(self).fits(old(bones)@),
            old(self).cached(inverse) is None ==> (old(self).parent matches Some(parent) ==> steps
                > 0 && rooted_within(parents_of(old(bones)@), parent as int, (steps - 1) as nat)),
        ensures
            r == old(self).value_over(old(bones)@, inverse),
            *final(self) == old(self).with_cached(inverse, Some(r)),
            final(bones)@ == old(self).built_over(old(bones)@, inverse),
        decreases steps,
    {
        let ghost before = bones@;
        let ghost tree = parents_of(before);
        let ghost poses = poses_of(before);
        let ghost cache = cached_of(before, inverse);
        let kept = if inverse {
            self.inv_pose
        } else {
            self.final_pose
        };
        if let Some(value) = kept {
            assert(self.with_cached(inverse, Some(value)) == *self);
            return value;
        }
        let local = if inverse {
            self.pose.inverse()
        } else {
            self.pose
        };
        let value = match self.parent {
            Some(id) => {
                let mut parent = bones[id];
                let parent_kept = if inverse {
                    parent.inv_pose
                } else {
                    parent.final_pose
                };
                assert(tree[id as int] == parent.parent);
                assert(cache[id as int] == parent_kept);
                let parent_value = match parent_kept {
                    Some(value) => {
                        proof {
                            assert(filled(tree, poses, cache, inverse, id as int) =~= cache);
                            assert(bones@ =~= old(self).built_over(before, inverse));
                        }
                        value
                    },
                    None => {
                        proof {
                            if parent.parent is Some {
                                lemma_parent_rooted(tree, id as int);
                                assert(rooted_within(tree, id as int, (steps - 1) as nat));
                                assert(rooted_within(
                                    tree,
                                    parent.parent->0 as int,
                                    (steps - 2) as nat,
                                ));
                            }
                        }
                        let value = parent.build_in(bones, inverse, Ghost((steps - 1) as nat));
                        let ghost between = bones@;
                        bones.set(id, parent);
                        proof {
                            let after = filled(tree, poses, cache, inverse, id as int);
                            assert forall|j: int| 0 <= j < before.len() implies bones@[j]
                                == before[j].with_cached(inverse, after[j]) by {
                                if let Some(up) = parent.parent {
                                    lemma_steps_do_not_matter(
                                        tree,
                                        poses,
                                        cache,
                                        inverse,
                                        up as int,
                                        j,
                                        (tree.len() - 1) as nat,
                                        tree.len(),
                                    );
                                    assert(parents_of(before)[j] == before[j].parent);
                                    assert(cached_of(before, inverse)[j] == before[j].cached(
                                        inverse,
                                    ));
                                }
                                if j != id {
                                    assert(bones@[j] == between[j]);
                                    if parent.parent is None {
                                        assert(between[j] == before[j]);
                                        assert(before[j].with_cached(inverse, cache[j])
                                            == before[j]);
                                    }
                                }
                            }
                            assert(bones@ =~= old(self).built_over(before, inverse));
                            if let Some(up) = parent.parent {
                                lemma_steps_do_not_matter(
                                    tree,
                                    poses,
                                    cache,
                                    inverse,
                                    up as int,
                                    0,
                                    (tree.len() - 1) as nat,
                                    tree.len(),
                                );
                            }
                            assert(poses[id as int] == parent.pose);
                        }
                        value
                    },
                };
                if inverse {
                    local.compose(&parent_value)
                } else {
                    parent_value.compose(&local)
                }
            },
            None => local,
        };
        if inverse {
            self.inv_pose = Some(value);
        } else {
            self.final_pose = Some(value);
        }
        value
    }

    /// The inverse bind pose of the bone: the one it has, else the inverse
    /// of its pose composed with the inverse bind pose of its parent, which
    /// is built the same way first. What is built is kept, in the bone and,
    /// for its ancestors, in `bones`.
    pub fn build_inv_pose(&mut self, bones: &mut Vec<Bone>) -> (r: Pose)
        requires
            old(self).fits(old(bones)@),
        ensures
            r == old(self).value_over(old(bones)@, true),
            *final(self) == (Bone { inv_pose: Some(r), ..*old(self) }),
            final(bones)@ == old(self).built_over(old(bones)@, true),
    {
        proof {
            let tree = parents_of(bones@);
            if let Some(parent) = self.parent {
                assert(rooted_within(tree, parent as int, tree.len()));
            }
        }
        self.build_in(bones, true, Ghost(bones@.len() + 1))
    }

    /// The world pose of the bone: the one it has, else its pose composed
    /// onto the world pose of its parent, which is built the same way first.
    /// What is built is kept, in the bone and, for its ancestors, in `bones`.
    pub fn build_pose(&mut self, bones: &mut Vec<Bone>) -> (r: Pose)
        requires
            old(self).fits(old(bones)@),
        ensures
            r == old(self).value_over(old(bones)@, false),
            *final(self) == (Bone { final_pose: Some(r), ..*old(self) }),
            final(bones)@ == old(self).built_over(old(bones)@, false),
    {
        proof {
            let tree = parents_of(bones@);
            if let Some(parent) = self.parent {
                assert(rooted_within(tree, parent as int, tree.len()));
            }
        }
        self.build_in(bones, false, Ghost(bones@.len() + 1))
    }
}

impl AnimationTarget for Bone {
    open spec fn pose(&self) -> Pose {
        self.pose
    }

    fn set_pose(&mut self, pose: Pose) {
        self.pose = pose;
    }

    fn get_pose(&self) -> (r: Pose) {
        self.pose
    }

    fn get_pose_mut(&mut self) -> (r: &mut Pose) {
        &mut self.pose
    }
}

} // verus!
