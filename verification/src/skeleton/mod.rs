//! A tree of bones and the two memoized passes over it: world poses, rebuilt
//! every tick, and inverse bind poses, built once.

pub mod bone;
pub mod error;

use crate::pose::Pose;
use crate::skeleton::error::{MissingFinalPose, MissingInvBindpose, MissingPose};
use nalgebra_glm::Mat4;
use vstd::prelude::*;

verus! {

/// The chain of parents from bone `i` ends at a root after at most `steps` steps.
pub open spec fn rooted_within(tree: Seq<Option<usize>>, i: int, steps: nat) -> bool
    decreases steps,
{
    0 <= i < tree.len() && match tree[i] {
        None => true,
        Some(parent) => steps > 0 && rooted_within(tree, parent as int, (steps - 1) as nat),
    }
}

/// Every parent is a bone of the tree and no bone is its own ancestor: from
/// every bone a root is reached in at most as many steps as there are bones.
pub open spec fn valid_tree(tree: Seq<Option<usize>>) -> bool {
    forall|i: int| 0 <= i < tree.len() ==> rooted_within(tree, i, tree.len())
}

/// What a bone contributes to a pass: its own pose to the world pass, the
/// inverse of it to the inverse bind pass.
pub open spec fn local_of(pose: Pose, inverse: bool) -> Pose {
    if inverse {
        pose.inverted()
    } else {
        pose
    }
}

/// A bone's value from its parent's: the world pass puts the parent outside,
/// the inverse bind pass inside.
pub open spec fn joined(parent: Pose, local: Pose, inverse: bool) -> Pose {
    if inverse {
        local.composed(parent)
    } else {
        parent.composed(local)
    }
}

/// The value of bone `i` in a pass: what the cache holds for it, else its
/// local value joined to the value of its parent.
pub open spec fn resolved_in(
    tree: Seq<Option<usize>>,
    pose: Seq<Pose>,
    cache: Seq<Option<Pose>>,
    inverse: bool,
    i: int,
    steps: nat,
) -> Pose
    decreases steps,
{
    match cache[i] {
        Some(value) => value,
        None => match tree[i] {
            Some(parent) if steps > 0 => joined(
                resolved_in(tree, pose, cache, inverse, parent as int, (steps - 1) as nat),
                local_of(pose[i], inverse),
                inverse,
            ),
            _ => local_of(pose[i], inverse),
        },
    }
}

/// Bone `j` is bone `i` or one of its ancestors, and neither it nor any bone
/// on the way up to it from `i` is cached: the bones that resolving `i` fills.
pub open spec fn open_path_in(
    tree: Seq<Option<usize>>,
    cache: Seq<Option<Pose>>,
    i: int,
    j: int,
    steps: nat,
) -> bool
    decreases steps,
{
    cache[i] is None && (i == j || match tree[i] {
        Some(parent) => steps > 0 && open_path_in(tree, cache, parent as int, j, (steps - 1) as nat),
        None => false,
    })
}

/// The value of bone `i` of a valid tree.
pub open spec fn value_of(
    tree: Seq<Option<usize>>,
    pose: Seq<Pose>,
    cache: Seq<Option<Pose>>,
    inverse: bool,
    i: int,
) -> Pose {
    resolved_in(tree, pose, cache, inverse, i, tree.len())
}

/// The bones of a valid tree that resolving bone `i` fills.
pub open spec fn open_path(tree: Seq<Option<usize>>, cache: Seq<Option<Pose>>, i: int, j: int) -> bool {
    open_path_in(tree, cache, i, j, tree.len())
}

/// The cache after bone `i` has been resolved: the bones on its open path
/// hold their values, the others what they held.
pub open spec fn filled(
    tree: Seq<Option<usize>>,
    pose: Seq<Pose>,
    cache: Seq<Option<Pose>>,
    inverse: bool,
    i: int,
) -> Seq<Option<Pose>> {
    Seq::new(
        cache.len(),
        |j: int|
            if open_path(tree, cache, i, j) {
                Some(value_of(tree, pose, cache, inverse, j))
            } else {
                cache[j]
            },
    )
}

/// In a valid tree the parent's chain is one step shorter than the bone's.
pub proof fn lemma_parent_rooted(tree: Seq<Option<usize>>, i: int)
    requires
        valid_tree(tree),
        0 <= i < tree.len(),
        tree[i] is Some,
    ensures
        0 <= tree[i]->0 < tree.len(),
        rooted_within(tree, tree[i]->0 as int, (tree.len() - 1) as nat),
{
    assert(rooted_within(tree, i, tree.len()));
    assert(rooted_within(tree, tree[i]->0 as int, (tree.len() - 1) as nat));
}

/// Once the chain of a bone ends within the steps allowed, allowing more
/// changes neither its value nor its open path.
pub proof fn lemma_steps_do_not_matter(
    tree: Seq<Option<usize>>,
    pose: Seq<Pose>,
    cache: Seq<Option<Pose>>,
    inverse: bool,
    i: int,
    j: int,
    a: nat,
    b: nat,
)
    requires
        rooted_within(tree, i, a),
        rooted_within(tree, i, b),
    ensures
        resolved_in(tree, pose, cache, inverse, i, a) == resolved_in(tree, pose, cache, inverse, i, b),
        open_path_in(tree, cache, i, j, a) == open_path_in(tree, cache, i, j, b),
    decreases a,
{
    if let Some(parent) = tree[i] {
        lemma_steps_do_not_matter(
            tree,
            pose,
            cache,
            inverse,
            parent as int,
            j,
            (a - 1) as nat,
            (b - 1) as nat,
        );
    }
}

/// Resolving a bone changes no bone's value: what it writes into the cache is
/// what the bones written would have resolved to.
pub proof fn lemma_filling_keeps_values(
    tree: Seq<Option<usize>>,
    pose: Seq<Pose>,
    cache: Seq<Option<Pose>>,
    inverse: bool,
    i: int,
    j: int,
)
    requires
        valid_tree(tree),
        tree.len() == pose.len() == cache.len(),
        0 <= i < tree.len(),
        0 <= j < tree.len(),
    ensures
        value_of(tree, pose, filled(tree, pose, cache, inverse, i), inverse, j) == value_of(
            tree,
            pose,
            cache,
            inverse,
            j,
        ),
{
    lemma_filling_keeps_values_in(tree, pose, cache, inverse, i, j, tree.len());
}

proof fn lemma_filling_keeps_values_in(
    tree: Seq<Option<usize>>,
    pose: Seq<Pose>,
    cache: Seq<Option<Pose>>,
    inverse: bool,
    i: int,
    j: int,
    steps: nat,
)
    requires
        valid_tree(tree),
        tree.len() == pose.len() == cache.len(),
        0 <= i < tree.len(),
        rooted_within(tree, j, steps),
    ensures
        resolved_in(tree, pose, filled(tree, pose, cache, inverse, i), inverse, j, steps)
            == resolved_in(tree, pose, cache, inverse, j, steps),
    decreases steps,
{
    let after = filled(tree, pose, cache, inverse, i);
    if open_path(tree, cache, i, j) {
        assert(after[j] == Some(value_of(tree, pose, cache, inverse, j)));
        assert(rooted_within(tree, j, tree.len()));
        lemma_steps_do_not_matter(tree, pose, cache, inverse, j, j, steps, tree.len());
    } else {
        assert(after[j] == cache[j]);
        if cache[j] is None {
            if let Some(parent) = tree[j] {
                lemma_filling_keeps_values_in(
                    tree,
                    pose,
                    cache,
                    inverse,
                    i,
                    parent as int,
                    (steps - 1) as nat,
                );
            }
        }
    }
}

/// Whether a list of parents is a valid tree.
pub fn is_valid_tree(tree: &Vec<Option<usize>>) -> (r: bool)
    ensures
        r == valid_tree(tree@),
{
    let len = tree.len();
    let mut i: usize = 0;
    while i < len
        invariant
            len == tree@.len(),
            i <= len,
            forall|k: int| 0 <= k < i ==> rooted_within(tree@, k, tree@.len()),
        decreases len - i,
    {
        let mut at: usize = i;
        let mut steps: usize = 0;
        loop
            invariant
                len == tree@.len(),
                i < len,
                at < len,
                steps <= len,
                rooted_within(tree@, i as int, len as nat) == rooted_within(
                    tree@,
                    at as int,
                    (len - steps) as nat,
                ),
            ensures
                rooted_within(tree@, i as int, len as nat),
            decreases len - steps,
        {
            match tree[at] {
                None => {
                    break ;
                },
                Some(parent) => {
                    if parent >= len || steps == len {
                        proof {
                            if steps < len {
                                assert(!rooted_within(
                                    tree@,
                                    parent as int,
                                    (len - steps - 1) as nat,
                                ));
                            }
                            assert(!rooted_within(tree@, at as int, (len - steps) as nat));
                        }
                        return false;
                    }
                    at = parent;
                    steps += 1;
                },
            }
        }
        i += 1;
    }
    true
}

/// What a skeleton holds, as plain sequences with one entry for each bone.
pub struct Rig {
    pub tree: Seq<Option<usize>>,
    pub pose: Seq<Pose>,
    pub world_pose: Seq<Option<Pose>>,
    pub inv_bind_pose: Seq<Option<Pose>>,
}

impl Rig {
    /// The four sequences are as long as each other, no longer than a bone
    /// index can count, and the parents form a valid tree.
    pub open spec fn well_formed(self) -> bool {
        &&& self.tree.len() <= usize::MAX
        &&& self.pose.len() == self.tree.len()
        &&& self.world_pose.len() == self.tree.len()
        &&& self.inv_bind_pose.len() == self.tree.len()
        &&& valid_tree(self.tree)
    }

    /// The world pose of bone `i`: what is cached for it, else its parent's
    /// world pose composed with its own pose.
    pub open spec fn world_of(self, i: int) -> Pose {
        value_of(self.tree, self.pose, self.world_pose, false, i)
    }

    /// The inverse bind pose of bone `i`: what is cached for it, else the
    /// inverse of its own pose composed with its parent's inverse bind pose.
    pub open spec fn inv_bind_of(self, i: int) -> Pose {
        value_of(self.tree, self.pose, self.inv_bind_pose, true, i)
    }

    /// The skeleton after the world pose of bone `i` has been built.
    pub open spec fn with_world_built(self, i: int) -> Rig {
        if 0 <= i < self.tree.len() {
            Rig { world_pose: filled(self.tree, self.pose, self.world_pose, false, i), ..self }
        } else {
            self
        }
    }

    /// The skeleton after the inverse bind pose of bone `i` has been built.
    pub open spec fn with_inv_bind_built(self, i: int) -> Rig {
        if 0 <= i < self.tree.len() {
            Rig { inv_bind_pose: filled(self.tree, self.pose, self.inv_bind_pose, true, i), ..self }
        } else {
            self
        }
    }

    /// The skeleton with no world pose cached.
    pub open spec fn with_world_reset(self) -> Rig {
        Rig { world_pose: Seq::new(self.tree.len(), |j: int| None::<Pose>), ..self }
    }

    /// The skeleton with no inverse bind pose cached.
    pub open spec fn with_inv_bind_reset(self) -> Rig {
        Rig { inv_bind_pose: Seq::new(self.tree.len(), |j: int| None::<Pose>), ..self }
    }

    /// The skeleton after the world poses of the bones in `order` have been
    /// built one after the other.
    pub open spec fn with_worlds_built(self, order: Seq<usize>) -> Rig
        decreases order.len(),
    {
        if order.len() == 0 {
            self
        } else {
            self.with_worlds_built(order.drop_last()).with_world_built(order.last() as int)
        }
    }
}

/// Resolves bone `joint_id` in one of the two passes, filling the cache for
/// it and for those of its ancestors that were not cached.
fn resolve_joint(
    tree: &Vec<Option<usize>>,
    pose: &Vec<Pose>,
    cache: &mut Vec<Option<Pose>>,
    inverse: bool,
    joint_id: usize,
    Ghost(steps): Ghost<nat>,
) -> (r: Pose)
    requires
        valid_tree(tree@),
        tree@.len() == pose@.len() == old(cache)@.len(),
        joint_id < tree@.len(),
        rooted_within(tree@, joint_id as int, steps),
    ensures
        r == value_of(tree@, pose@, old(cache)@, inverse, joint_id as int),
        final(cache)@ == filled(tree@, pose@, old(cache)@, inverse, joint_id as int),
    decreases steps,
{
    let ghost before = cache@;
    let ghost len = tree@.len();
    if let Some(value) = cache[joint_id] {
        assert(cache@ =~= filled(tree@, pose@, before, inverse, joint_id as int));
        return value;
    }
    let local = if inverse {
        pose[joint_id].inverse()
    } else {
        pose[joint_id]
    };
    let value = match tree[joint_id] {
        Some(parent) => {
            proof {
                lemma_parent_rooted(tree@, joint_id as int);
            }
            let parent_value = resolve_joint(
                tree,
                pose,
                cache,
                inverse,
                parent,
                Ghost((steps - 1) as nat),
            );
            proof {
                lemma_steps_do_not_matter(
                    tree@,
                    pose@,
                    before,
                    inverse,
                    parent as int,
                    0,
                    (len - 1) as nat,
                    len,
                );
            }
            if inverse {
                local.compose(&parent_value)
            } else {
                parent_value.compose(&local)
            }
        },
        None => local,
    };
    let ghost between = cache@;
    cache.set(joint_id, Some(value));
    proof {
        assert forall|j: int| 0 <= j < len implies cache@[j] == filled(
            tree@,
            pose@,
            before,
            inverse,
            joint_id as int,
        )[j] by {
            if let Some(parent) = tree@[joint_id as int] {
                lemma_steps_do_not_matter(
                    tree@,
                    pose@,
                    before,
                    inverse,
                    parent as int,
                    j,
                    (len - 1) as nat,
                    len,
                );
            }
        }
        assert(cache@ =~= filled(tree@, pose@, before, inverse, joint_id as int));
    }
    value
}

/// The local poses of a skeleton, one for each bone.
pub type SkeletalPose = Vec<Pose>;

/// A tree of bones: for each bone its parent, its local pose, and the two
/// cached poses.
pub struct Skeleton {
    tree: Vec<Option<usize>>,
    pose: SkeletalPose,
    world_pose: Vec<Option<Pose>>,
    inv_bind_pose: Vec<Option<Pose>>,
}

impl View for Skeleton {
    type V = Rig;

    closed spec fn view(&self) -> Rig {
        Rig {
            tree: self.tree@,
            pose: self.pose@,
            world_pose: self.world_pose@,
            inv_bind_pose: self.inv_bind_pose@,
        }
    }
}

impl Rig {
    /// Bone `i` has no world pose, or has a parent without one.
    pub open spec fn lacks_world(self, i: int) -> bool {
        self.world_pose[i] is None || (self.tree[i] matches Some(parent)
            && self.world_pose[parent as int] is None)
    }

    /// The local pose that gives bone `i` its cached world pose: the world
    /// pose itself for a root, else the world pose seen from the parent.
    pub open spec fn local_from_world(self, i: int) -> Pose {
        match self.tree[i] {
            Some(parent) => self.world_pose[parent as int]->0.inverted().composed(
                self.world_pose[i]->0,
            ),
            None => self.world_pose[i]->0,
        }
    }

    /// The skinning pose of bone `i`: its world pose composed with its
    /// inverse bind pose, when both are cached.
    pub open spec fn output_of(self, i: int) -> Result<Pose, MissingPose> {
        match self.world_pose[i] {
            None => Err(MissingPose::Final(MissingFinalPose)),
            Some(world) => match self.inv_bind_pose[i] {
                None => Err(MissingPose::InvBind(MissingInvBindpose)),
                Some(inv) => Ok(world.composed(inv)),
            },
        }
    }
}

/// The bone at which taking local poses from world poses stops is the first
/// that lacks a world pose, or the end if none does.
proof fn lemma_stops_where_world_lacks(rig: Rig, at: int)
    requires
        0 <= at <= rig.tree.len(),
        at == rig.tree.len() || rig.lacks_world(at),
        forall|k: int| 0 <= k < at ==> !rig.lacks_world(k),
    ensures
        forall|stop: int|
            0 <= stop <= rig.tree.len() && (stop == rig.tree.len() || rig.lacks_world(stop)) && (
            forall|i: int| 0 <= i < stop ==> !rig.lacks_world(i)) ==> stop == at,
{
    assert forall|stop: int|
        0 <= stop <= rig.tree.len() && (stop == rig.tree.len() || rig.lacks_world(stop)) && (
        forall|i: int| 0 <= i < stop ==> !rig.lacks_world(i)) implies stop == at by {
        if stop < at {
            assert(!rig.lacks_world(stop));
        } else if at < stop {
            assert(!rig.lacks_world(at));
        }
    }
}

/// A cache of `len` bones with nothing in it.
fn empty_cache(len: usize) -> (r: Vec<Option<Pose>>)
    ensures
        r@ == Seq::new(len as nat, |j: int| None::<Pose>),
{
    let mut cache: Vec<Option<Pose>> = Vec::new();
    let mut i: usize = 0;
    while i < len
        invariant
            i <= len,
            cache@ == Seq::new(i as nat, |j: int| None::<Pose>),
        decreases len - i,
    {
        cache.push(None);
        i += 1;
        assert(cache@ =~= Seq::new(i as nat, |j: int| None::<Pose>));
    }
    cache
}

impl Skeleton {
    /// A skeleton of the bones whose parents `tree` lists and whose local
    /// poses `pose` lists, with nothing cached.
    pub fn from_tree_pose(tree: Vec<Option<usize>>, pose: SkeletalPose) -> (r: Skeleton)
        requires
            tree@.len() == pose@.len(),
            valid_tree(tree@),
        ensures
            r@.well_formed(),
            r@.tree == tree@,
            r@.pose == pose@,
            r@ == r@.with_world_reset().with_inv_bind_reset(),
    {
        let world_pose = empty_cache(tree.len());
        let inv_bind_pose = empty_cache(tree.len());
        let r = Skeleton { tree, pose, world_pose, inv_bind_pose };
        assert(r@.world_pose =~= r@.with_world_reset().world_pose);
        assert(r@.inv_bind_pose =~= r@.with_inv_bind_reset().inv_bind_pose);
        r
    }

    /// Whether the skeleton is well formed: see `Rig::well_formed`. Every
    /// skeleton that `from_tree_pose` made is, and stays so.
    pub fn is_well_formed(&self) -> (r: bool)
        ensures
            r == self@.well_formed(),
    {
        let count = self.tree.len();
        self.pose.len() == count && self.world_pose.len() == count && self.inv_bind_pose.len()
            == count && is_valid_tree(&self.tree)
    }

    /// No two bones are roots. True also of a skeleton without any root.
    pub fn contains_one_root(&self) -> (r: bool)
        ensures
            r == (forall|i: int, j: int|
                0 <= i < j < self@.tree.len() ==> !(self@.tree[i] is None && self@.tree[j] is None)),
    {
        let mut found = false;
        let ghost mut root: int = 0;
        let mut i: usize = 0;
        while i < self.tree.len()
            invariant
                i <= self.tree@.len(),
                found ==> 0 <= root < i && self.tree@[root] is None,
                !found ==> forall|k: int| 0 <= k < i ==> self.tree@[k] is Some,
                forall|a: int, b: int|
                    0 <= a < b < i ==> !(self.tree@[a] is None && self.tree@[b] is None),
            decreases self.tree@.len() - i,
        {
            if self.tree[i].is_none() {
                if found {
                    return false;
                }
                found = true;
                proof {
                    root = i as int;
                }
            }
            i += 1;
        }
        true
    }

    /// The first bone without a parent.
    pub fn get_root_id(&self) -> (r: Option<usize>)
        ensures
            match r {
                Some(i) => i < self@.tree.len() && self@.tree[i as int] is None && forall|k: int|
                    0 <= k < i ==> self@.tree[k] is Some,
                None => forall|k: int| 0 <= k < self@.tree.len() ==> self@.tree[k] is Some,
            },
    {
        let mut i: usize = 0;
        while i < self.tree.len()
            invariant
                i <= self.tree@.len(),
                forall|k: int| 0 <= k < i ==> self.tree@[k] is Some,
            decreases self.tree@.len() - i,
        {
            if self.tree[i].is_none() {
                return Some(i);
            }
            i += 1;
        }
        None
    }

    pub fn joint_pose(&self, id: usize) -> (r: Option<Pose>)
        requires
            self@.well_formed(),
        ensures
            r == if id < self@.tree.len() {
                Some(self@.pose[id as int])
            } else {
                None
            },
    {
        if id >= self.tree.len() {
            return None;
        }
        Some(self.pose[id])
    }

    /// The local pose of bone `id`, to be changed in place. Cached poses are
    /// left as they are.
    pub fn joint_pose_mut(&mut self, id: usize) -> (r: Option<&mut Pose>)
        requires
            old(self)@.well_formed(),
        ensures
            r is Some <==> id < old(self)@.tree.len(),
            r is None ==> final(self)@ == old(self)@,
            r matches Some(pose) ==> *pose == old(self)@.pose[id as int] && final(self)@ == (Rig {
                pose: old(self)@.pose.update(id as int, *final(pose)),
                ..old(self)@
            }),
            final(self)@.well_formed(),
    {
        if id >= self.tree.len() {
            return None;
        }
        Some(&mut self.pose[id])
    }

    /// The local poses of all bones, to be changed in place.
    pub fn pose_ref_mut(&mut self) -> (r: &mut [Pose])
        ensures
            r@ == old(self)@.pose,
            final(self)@ == (Rig { pose: final(r)@, ..old(self)@ }),
    {
        self.pose.as_mut_slice()
    }

    /// The cached world pose of bone `id`, if it is a bone and has one.
    pub fn joint_world_pose(&self, id: usize) -> (r: Option<Pose>)
        requires
            self@.well_formed(),
        ensures
            r == if id < self@.tree.len() {
                self@.world_pose[id as int]
            } else {
                None
            },
    {
        if id >= self.tree.len() {
            return None;
        }
        self.world_pose[id]
    }

    pub fn bone_count(&self) -> (r: usize)
        ensures
            r == self@.tree.len(),
    {
        self.tree.len()
    }

    pub fn tree_ref(&self) -> (r: &[Option<usize>])
        ensures
            r@ == self@.tree,
    {
        self.tree.as_slice()
    }

    pub fn pose_ref(&self) -> (r: &[Pose])
        ensures
            r@ == self@.pose,
    {
        self.pose.as_slice()
    }

    pub fn world_pose_ref(&self) -> (r: &[Option<Pose>])
        ensures
            r@ == self@.world_pose,
    {
        self.world_pose.as_slice()
    }

    /// The skinning pose of every bone, in bone order: its world pose
    /// composed with its inverse bind pose, or which of the two is missing.
    pub fn output_poses(&self) -> (r: Vec<Result<Pose, MissingPose>>)
        requires
            self@.well_formed(),
        ensures
            r@ == Seq::new(self@.tree.len(), |i: int| self@.output_of(i)),
    {
        let mut out: Vec<Result<Pose, MissingPose>> = Vec::new();
        let mut i: usize = 0;
        while i < self.tree.len()
            invariant
                self@.well_formed(),
                i <= self@.tree.len(),
                out@ == Seq::new(i as nat, |k: int| self@.output_of(k)),
            decreases self@.tree.len() - i,
        {
            let item = match self.world_pose[i] {
                None => Err(MissingPose::Final(MissingFinalPose)),
                Some(world) => match self.inv_bind_pose[i] {
                    None => Err(MissingPose::InvBind(MissingInvBindpose)),
                    Some(inv) => Ok(world.compose(&inv)),
                },
            };
            out.push(item);
            i += 1;
            assert(out@ =~= Seq::new(i as nat, |k: int| self@.output_of(k)));
        }
        out
    }

    /// What `map` makes of the cached world pose of every bone, in bone order.
    pub fn map_world_poses<T, M: Fn(Option<Pose>) -> T>(&self, map: M) -> (r: Vec<T>)
        requires
            forall|pose: Option<Pose>| map.requires((pose,)),
        ensures
            r@.len() == self@.world_pose.len(),
            forall|i: int|
                0 <= i < r@.len() ==> map.ensures((self@.world_pose[i],), #[trigger] r@[i]),
    {
        let mut out: Vec<T> = Vec::new();
        let mut i: usize = 0;
        while i < self.world_pose.len()
            invariant
                i <= self@.world_pose.len(),
                out@.len() == i,
                forall|pose: Option<Pose>| map.requires((pose,)),
                forall|k: int| 0 <= k < i ==> map.ensures((self@.world_pose[k],), #[trigger] out@[k]),
            decreases self@.world_pose.len() - i,
        {
            out.push(map(self.world_pose[i]));
            i += 1;
        }
        out
    }

    /// The matrix of the cached world pose of every bone, in bone order.
    pub fn world_poses_to_matrices(&self) -> (r: Vec<Option<Mat4>>)
        ensures
            r@ == Seq::new(
                self@.world_pose.len(),
                |i: int|
                    match self@.world_pose[i] {
                        Some(pose) => Some(pose.as_matrix()),
                        None => None,
                    },
            ),
    {
        let mut out: Vec<Option<Mat4>> = Vec::new();
        let mut i: usize = 0;
        while i < self.world_pose.len()
            invariant
                i <= self@.world_pose.len(),
                out@ == Seq::new(
                    i as nat,
                    |k: int|
                        match self@.world_pose[k] {
                            Some(pose) => Some(pose.as_matrix()),
                            None => None,
                        },
                ),
            decreases self@.world_pose.len() - i,
        {
            let item = match self.world_pose[i] {
                Some(pose) => Some(pose.matrix()),
                None => None,
            };
            out.push(item);
            i += 1;
            assert(out@ =~= Seq::new(
                i as nat,
                |k: int|
                    match self@.world_pose[k] {
                        Some(pose) => Some(pose.as_matrix()),
                        None => None,
                    },
            ));
        }
        out
    }

    /// The matrix of the skinning pose of every bone, in bone order, or
    /// which of its two poses is missing.
    pub fn output_matrices(&self) -> (r: Vec<Result<Mat4, MissingPose>>)
        requires
            self@.well_formed(),
        ensures
            r@ == Seq::new(
                self@.tree.len(),
                |i: int|
                    match self@.output_of(i) {
                        Ok(pose) => Ok(pose.as_matrix()),
                        Err(e) => Err(e),
                    },
            ),
    {
        let poses = self.output_poses();
        let mut out: Vec<Result<Mat4, MissingPose>> = Vec::new();
        let mut i: usize = 0;
        while i < poses.len()
            invariant
                poses@ == Seq::new(self@.tree.len(), |k: int| self@.output_of(k)),
                i <= poses@.len(),
                out@ == Seq::new(
                    i as nat,
                    |k: int|
                        match self@.output_of(k) {
                            Ok(pose) => Ok(pose.as_matrix()),
                            Err(e) => Err(e),
                        },
                ),
            decreases poses@.len() - i,
        {
            let item = match poses[i] {
                Ok(pose) => Ok(pose.matrix()),
                Err(e) => Err(e),
            };
            out.push(item);
            i += 1;
            assert(out@ =~= Seq::new(
                i as nat,
                |k: int|
                    match self@.output_of(k) {
                        Ok(pose) => Ok(pose.as_matrix()),
                        Err(e) => Err(e),
                    },
            ));
        }
        out
    }

    /// Takes the inverse bind poses from `poses`, bone by bone. When `poses`
    /// runs out first, the bones it reached keep what they were given and
    /// the call fails.
    pub fn set_inv_bind_pose_iter(&mut self, poses: &[Pose]) -> (r: Result<(), MissingInvBindpose>)
        requires
            old(self)@.well_formed(),
        ensures
            r is Ok <==> poses@.len() >= old(self)@.tree.len(),
            final(self)@ == (Rig {
                inv_bind_pose: Seq::new(
                    old(self)@.tree.len(),
                    |i: int|
                        if i < poses@.len() {
                            Some(poses@[i])
                        } else {
                            old(self)@.inv_bind_pose[i]
                        },
                ),
                ..old(self)@
            }),
            final(self)@.well_formed(),
    {
        let ghost before = self@;
        let mut i: usize = 0;
        while i < self.inv_bind_pose.len()
            invariant
                before == old(self)@,
                before.well_formed(),
                i <= before.tree.len(),
                i <= poses@.len(),
                self@.tree == before.tree,
                self@.pose == before.pose,
                self@.world_pose == before.world_pose,
                self@.inv_bind_pose.len() == before.tree.len(),
                forall|k: int|
                    0 <= k < before.tree.len() ==> self@.inv_bind_pose[k] == if k < i {
                        Some(poses@[k])
                    } else {
                        before.inv_bind_pose[k]
                    },
            decreases before.tree.len() - i,
        {
            if i >= poses.len() {
                assert(self@.inv_bind_pose =~= Seq::new(
                    before.tree.len(),
                    |k: int|
                        if k < poses@.len() {
                            Some(poses@[k])
                        } else {
                            before.inv_bind_pose[k]
                        },
                ));
                return Err(MissingInvBindpose);
            }
            self.inv_bind_pose.set(i, Some(poses[i]));
            i += 1;
        }
        assert(self@.inv_bind_pose =~= Seq::new(
            before.tree.len(),
            |k: int|
                if k < poses@.len() {
                    Some(poses@[k])
                } else {
                    before.inv_bind_pose[k]
                },
        ));
        Ok(())
    }

    /// The world pose of bone `joint_id`: the cached one, else the bone's
    /// pose composed onto the world pose of its parent, which is built the
    /// same way first. What is built is cached. `None` if there is no such
    /// bone.
    pub fn build_joint_world_pose(&mut self, joint_id: usize) -> (r: Option<Pose>)
        requires
            old(self)@.well_formed(),
        ensures
            r == if joint_id < old(self)@.tree.len() {
                Some(old(self)@.world_of(joint_id as int))
            } else {
                None
            },
            final(self)@ == old(self)@.with_world_built(joint_id as int),
            final(self)@.well_formed(),
    {
        if joint_id >= self.tree.len() {
            return None;
        }
        let pose = resolve_joint(
            &self.tree,
            &self.pose,
            &mut self.world_pose,
            false,
            joint_id,
            Ghost(self.tree@.len()),
        );
        Some(pose)
    }

    /// Forgets the cached world poses and builds them all anew.
    pub fn build_world_poses(&mut self)
        requires
            old(self)@.well_formed(),
        ensures
            final(self)@ == (Rig {
                world_pose: Seq::new(
                    old(self)@.tree.len(),
                    |j: int| Some(old(self)@.with_world_reset().world_of(j)),
                ),
                ..old(self)@
            }),
            final(self)@.well_formed(),
    {
        self.reset_world_poses();
        let ghost start = self@;
        let mut i: usize = 0;
        while i < self.tree.len()
            invariant
                start.well_formed(),
                self@.well_formed(),
                self@.tree == start.tree,
                self@.pose == start.pose,
                self@.inv_bind_pose == start.inv_bind_pose,
                i <= start.tree.len(),
                agrees_with_rest(start.tree, start.pose, self@.world_pose, false),
                forall|k: int| 0 <= k < i ==> self@.world_pose[k] is Some,
            decreases start.tree.len() - i,
        {
            proof {
                lemma_filling_agrees(start.tree, start.pose, self@.world_pose, false, i as int);
            }
            self.build_joint_world_pose(i);
            i += 1;
        }
        assert(start.world_pose =~= Seq::new(start.tree.len(), |k: int| None::<Pose>));
        assert(self@.world_pose =~= Seq::new(
            start.tree.len(),
            |j: int| Some(start.world_of(j)),
        ));
    }

    /// Forgets the cached world poses.
    pub fn reset_world_poses(&mut self)
        requires
            old(self)@.well_formed(),
        ensures
            final(self)@ == old(self)@.with_world_reset(),
            final(self)@.well_formed(),
    {
        let ghost before = self@;
        let mut i: usize = 0;
        while i < self.world_pose.len()
            invariant
                before.well_formed(),
                i <= before.tree.len(),
                self@.tree == before.tree,
                self@.pose == before.pose,
                self@.inv_bind_pose == before.inv_bind_pose,
                self@.world_pose.len() == before.tree.len(),
                forall|k: int| 0 <= k < i ==> self@.world_pose[k] is None,
            decreases before.tree.len() - i,
        {
            self.world_pose.set(i, None);
            i += 1;
        }
        assert(self@.world_pose =~= before.with_world_reset().world_pose);
    }

    /// The inverse bind pose of bone `joint_id`: the cached one, else the
    /// inverse of the bone's pose composed with the inverse bind pose of its
    /// parent, which is built the same way first. What is built is cached.
    /// `None` if there is no such bone.
    pub fn joint_inv_bind_pose(&mut self, joint_id: usize) -> (r: Option<Pose>)
        requires
            old(self)@.well_formed(),
        ensures
            r == if joint_id < old(self)@.tree.len() {
                Some(old(self)@.inv_bind_of(joint_id as int))
            } else {
                None
            },
            final(self)@ == old(self)@.with_inv_bind_built(joint_id as int),
            final(self)@.well_formed(),
    {
        if joint_id >= self.tree.len() {
            return None;
        }
        let pose = resolve_joint(
            &self.tree,
            &self.pose,
            &mut self.inv_bind_pose,
            true,
            joint_id,
            Ghost(self.tree@.len()),
        );
        Some(pose)
    }

    /// Replaces the local poses by those that give the bones their cached
    /// world poses, bone by bone. At the first bone that lacks a world pose,
    /// or whose parent does, the call fails; the bones before it keep their
    /// new poses.
    pub fn poses_from_world_poses(&mut self) -> (r: Result<(), MissingFinalPose>)
        requires
            old(self)@.well_formed(),
        ensures
            r is Ok <==> forall|i: int| 0 <= i < old(self)@.tree.len() ==> !old(self)@.lacks_world(i),
            forall|stop: int|
                0 <= stop <= old(self)@.tree.len() && (stop == old(self)@.tree.len() || old(
                    self,
                )@.lacks_world(stop)) && (forall|i: int| 0 <= i < stop ==> !old(self)@.lacks_world(i))
                    ==> final(self)@ == (Rig {
                    pose: Seq::new(
                        old(self)@.tree.len(),
                        |i: int|
                            if i < stop {
                                old(self)@.local_from_world(i)
                            } else {
                                old(self)@.pose[i]
                            },
                    ),
                    ..old(self)@
                }),
            final(self)@.well_formed(),
    {
        let ghost before = self@;
        let mut i: usize = 0;
        while i < self.tree.len()
            invariant
                before == old(self)@,
                before.well_formed(),
                i <= before.tree.len(),
                self@.tree == before.tree,
                self@.world_pose == before.world_pose,
                self@.inv_bind_pose == before.inv_bind_pose,
                self@.pose.len() == before.tree.len(),
                forall|k: int| 0 <= k < i ==> !before.lacks_world(k),
                forall|k: int|
                    0 <= k < before.tree.len() ==> self@.pose[k] == if k < i {
                        before.local_from_world(k)
                    } else {
                        before.pose[k]
                    },
            decreases before.tree.len() - i,
        {
            let ghost reached = Seq::new(
                before.tree.len(),
                |k: int|
                    if k < i {
                        before.local_from_world(k)
                    } else {
                        before.pose[k]
                    },
            );
            assert(self@.pose =~= reached);
            let mut pose = match self.world_pose[i] {
                Some(pose) => pose,
                None => {
                    proof {
                        assert(before.world_pose[i as int] is None);
                        assert(before.lacks_world(i as int));
                        lemma_stops_where_world_lacks(before, i as int);
                        assert(self@ == (Rig { pose: reached, ..before }));
                    }
                    return Err(MissingFinalPose);
                },
            };
            match self.tree[i] {
                Some(parent) => {
                    proof {
                        lemma_parent_rooted(before.tree, i as int);
                    }
                    let parent_pose = match self.world_pose[parent] {
                        Some(pose) => pose,
                        None => {
                            proof {
                                assert(before.world_pose[parent as int] is None);
                                assert(before.lacks_world(i as int));
                                lemma_stops_where_world_lacks(before, i as int);
                                assert(self@ == (Rig { pose: reached, ..before }));
                            }
                            return Err(MissingFinalPose);
                        },
                    };
                    pose = parent_pose.inverse().compose(&pose);
                },
                None => {},
            }
            self.pose.set(i, pose);
            i += 1;
        }
        proof {
            lemma_stops_where_world_lacks(before, i as int);
            assert(self@.pose =~= Seq::new(
                before.tree.len(),
                |k: int|
                    if k < i {
                        before.local_from_world(k)
                    } else {
                        before.pose[k]
                    },
            ));
        }
        Ok(())
    }

    /// Forgets the cached inverse bind poses.
    pub fn reset_inv_bind_poses(&mut self)
        requires
            old(self)@.well_formed(),
        ensures
            final(self)@ == old(self)@.with_inv_bind_reset(),
            final(self)@.well_formed(),
    {
        let ghost before = self@;
        let mut i: usize = 0;
        while i < self.inv_bind_pose.len()
            invariant
                before.well_formed(),
                i <= before.tree.len(),
                self@.tree == before.tree,
                self@.pose == before.pose,
                self@.world_pose == before.world_pose,
                self@.inv_bind_pose.len() == before.tree.len(),
                forall|k: int| 0 <= k < i ==> self@.inv_bind_pose[k] is None,
            decreases before.tree.len() - i,
        {
            self.inv_bind_pose.set(i, None);
            i += 1;
        }
        assert(self@.inv_bind_pose =~= before.with_inv_bind_reset().inv_bind_pose);
    }

    /// Forgets the cached inverse bind poses and builds them all anew from
    /// the local poses.
    pub fn build_inv_bind_poses(&mut self)
        requires
            old(self)@.well_formed(),
        ensures
            final(self)@ == (Rig {
                inv_bind_pose: Seq::new(
                    old(self)@.tree.len(),
                    |j: int| Some(old(self)@.with_inv_bind_reset().inv_bind_of(j)),
                ),
                ..old(self)@
            }),
            final(self)@.well_formed(),
    {
        self.reset_inv_bind_poses();
        let ghost start = self@;
        let mut i: usize = 0;
        while i < self.tree.len()
            invariant
                start.well_formed(),
                self@.well_formed(),
                self@.tree == start.tree,
                self@.pose == start.pose,
                self@.world_pose == start.world_pose,
                i <= start.tree.len(),
                agrees_with_rest(start.tree, start.pose, self@.inv_bind_pose, true),
                forall|k: int| 0 <= k < i ==> self@.inv_bind_pose[k] is Some,
            decreases start.tree.len() - i,
        {
            proof {
                lemma_filling_agrees(start.tree, start.pose, self@.inv_bind_pose, true, i as int);
            }
            self.joint_inv_bind_pose(i);
            i += 1;
        }
        assert(start.inv_bind_pose =~= Seq::new(start.tree.len(), |k: int| None::<Pose>));
        assert(self@.inv_bind_pose =~= Seq::new(
            start.tree.len(),
            |j: int| Some(start.inv_bind_of(j)),
        ));
    }
}

/// Every entry of the cache that is filled holds the value that the bone has
/// when nothing is cached.
pub open spec fn agrees_with_rest(
    tree: Seq<Option<usize>>,
    pose: Seq<Pose>,
    cache: Seq<Option<Pose>>,
    inverse: bool,
) -> bool {
    forall|j: int|
        0 <= j < tree.len() ==> #[trigger] cache[j] is None || cache[j] == Some(
            value_of(tree, pose, Seq::new(tree.len(), |k: int| None::<Pose>), inverse, j),
        )
}

proof fn lemma_agreeing_cache_keeps_values(
    tree: Seq<Option<usize>>,
    pose: Seq<Pose>,
    cache: Seq<Option<Pose>>,
    inverse: bool,
    j: int,
    steps: nat,
)
    requires
        valid_tree(tree),
        tree.len() == pose.len() == cache.len(),
        agrees_with_rest(tree, pose, cache, inverse),
        rooted_within(tree, j, steps),
    ensures
        resolved_in(tree, pose, cache, inverse, j, steps) == value_of(
            tree,
            pose,
            Seq::new(tree.len(), |k: int| None::<Pose>),
            inverse,
            j,
        ),
    decreases steps,
{
    let empty = Seq::new(tree.len(), |k: int| None::<Pose>);
    assert(rooted_within(tree, j, tree.len()));
    lemma_steps_do_not_matter(tree, pose, empty, inverse, j, j, steps, tree.len());
    if cache[j] is None {
        if let Some(parent) = tree[j] {
            lemma_agreeing_cache_keeps_values(
                tree,
                pose,
                cache,
                inverse,
                parent as int,
                (steps - 1) as nat,
            );
            assert(rooted_within(tree, parent as int, (steps - 1) as nat));
            assert(rooted_within(tree, parent as int, tree.len()));
            lemma_steps_do_not_matter(
                tree,
                pose,
                empty,
                inverse,
                parent as int,
                j,
                (steps - 1) as nat,
                tree.len(),
            );
            assert(empty[j] is None);
        }
    }
}

/// Resolving a bone in a cache that agrees with the rest values leaves one
/// that agrees with them, keeps what was filled, and fills the bone.
pub proof fn lemma_filling_agrees(
    tree: Seq<Option<usize>>,
    pose: Seq<Pose>,
    cache: Seq<Option<Pose>>,
    inverse: bool,
    i: int,
)
    requires
        valid_tree(tree),
        tree.len() == pose.len() == cache.len(),
        agrees_with_rest(tree, pose, cache, inverse),
        0 <= i < tree.len(),
    ensures
        agrees_with_rest(tree, pose, filled(tree, pose, cache, inverse, i), inverse),
        filled(tree, pose, cache, inverse, i)[i] is Some,
        forall|j: int|
            0 <= j < tree.len() && cache[j] is Some ==> #[trigger] filled(
                tree,
                pose,
                cache,
                inverse,
                i,
            )[j] is Some,
{
    let after = filled(tree, pose, cache, inverse, i);
    assert forall|j: int| 0 <= j < tree.len() implies #[trigger] after[j] is None || after[j]
        == Some(
        value_of(tree, pose, Seq::new(tree.len(), |k: int| None::<Pose>), inverse, j),
    ) by {
        lemma_agreeing_cache_keeps_values(tree, pose, cache, inverse, j, tree.len());
    }
    assert(cache[i] is None ==> open_path(tree, cache, i, i));
}

/// After the world poses have been reset and then built for the bones of
/// `order`, every bone that `order` names holds its rest world pose, and
/// every other bone holds that or nothing.
proof fn lemma_built_in_order(rig: Rig, order: Seq<usize>)
    requires
        rig.well_formed(),
    ensures
        ({
            let built = rig.with_world_reset().with_worlds_built(order);
            &&& built.tree == rig.tree
            &&& built.pose == rig.pose
            &&& built.world_pose.len() == rig.tree.len()
            &&& agrees_with_rest(built.tree, built.pose, built.world_pose, false)
            &&& forall|k: int|
                0 <= k < order.len() && order[k] < rig.tree.len() ==> built.world_pose[order[k] as int] is Some
        }),
    decreases order.len(),
{
    let start = rig.with_world_reset();
    if order.len() > 0 {
        let head = order.drop_last();
        let before = start.with_worlds_built(head);
        lemma_built_in_order(rig, head);
        let i = order.last() as int;
        let built = before.with_world_built(i);
        if 0 <= i < rig.tree.len() {
            lemma_filling_agrees(before.tree, before.pose, before.world_pose, false, i);
        }
        assert forall|k: int| 0 <= k < order.len() && order[k] < rig.tree.len() implies built.world_pose[order[k] as int] is Some by {
            if k < head.len() {
                assert(head[k] == order[k]);
                assert(before.world_pose[order[k] as int] is Some);
            }
        }
    }
}

/// The world poses do not depend on the order in which the bones are built:
/// after a reset, any order that names every bone leaves every bone with the
/// world pose that it has when nothing is cached, its own pose composed onto
/// its parent's world pose.
pub proof fn lemma_build_order_does_not_matter(rig: Rig, order: Seq<usize>)
    requires
        rig.well_formed(),
        forall|j: usize| j < rig.tree.len() ==> order.contains(j),
    ensures
        rig.with_world_reset().with_worlds_built(order).world_pose == Seq::new(
            rig.tree.len(),
            |j: int| Some(rig.with_world_reset().world_of(j)),
        ),
{
    let built = rig.with_world_reset().with_worlds_built(order);
    lemma_built_in_order(rig, order);
    assert forall|j: int| 0 <= j < rig.tree.len() implies built.world_pose[j] == Some(
        rig.with_world_reset().world_of(j),
    ) by {
        assert(order.contains(j as usize));
        let k = choose|k: int| 0 <= k < order.len() && order[k] == j as usize;
        assert(built.world_pose[order[k] as int] is Some);
    }
    assert(built.world_pose =~= Seq::new(
        rig.tree.len(),
        |j: int| Some(rig.with_world_reset().world_of(j)),
    ));
}

/// Two orders that each name every bone build the same world poses.
pub proof fn lemma_any_two_orders_agree(rig: Rig, first: Seq<usize>, second: Seq<usize>)
    requires
        rig.well_formed(),
        forall|j: usize| j < rig.tree.len() ==> first.contains(j),
        forall|j: usize| j < rig.tree.len() ==> second.contains(j),
    ensures
        rig.with_world_reset().with_worlds_built(first).world_pose
            == rig.with_world_reset().with_worlds_built(second).world_pose,
{
    lemma_build_order_does_not_matter(rig, first);
    lemma_build_order_does_not_matter(rig, second);
}

} // verus!
