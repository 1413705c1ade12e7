//! What a skeleton answers when a pose is asked for before it was built.

use vstd::prelude::*;

verus! {

/// A bone has no inverse bind pose yet.
#[derive(Debug, Clone, Copy, PartialEq, Eq, Structural)]
pub struct MissingInvBindpose;

impl MissingInvBindpose {
    /// The error in words.
    pub fn message(&self) -> (r: String)
        ensures
            r@ == "Missing inverse bind pose matrix"@,
    {
        "Missing inverse bind pose matrix".to_string()
    }
}

/// A bone has no world pose yet.
#[derive(Debug, Clone, Copy, PartialEq, Eq, Structural)]
pub struct MissingFinalPose;

impl MissingFinalPose {
    /// The error in words.
    pub fn message(&self) -> (r: String)
        ensures
            r@ == "Missing final pose"@,
    {
        "Missing final pose".to_string()
    }
}

/// Either of the two, for results that need both poses of a bone.
#[derive(Debug, Clone, Copy, PartialEq, Eq, Structural)]
pub enum MissingPose {
    Final(MissingFinalPose),
    InvBind(MissingInvBindpose),
}

} // verus!
