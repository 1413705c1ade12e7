//! Runtime core of a skeletal-animation engine: a playback cursor over sampled
//! clips, hierarchical pose resolution over a bone tree, and the mesh
//! containers that go with them.

pub mod animation;
pub mod collada_load;
pub mod collada_loader;
pub mod math;
pub mod mesh;
pub mod pose;
pub mod skeleton;
