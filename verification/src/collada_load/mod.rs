//! Builds clips, skeletons and meshes from what a scene file holds, given as
//! plain lists.

pub mod animation;
pub mod mesh;
pub mod skeleton;
