//! Builds clips, skeletons and meshes from the joints, animations and
//! objects of a scene, given as plain lists.

pub mod animation_loader;
pub mod mesh_loader;
pub mod skeleton_loader;
