//! Point clouds from model files, and the decisions that drive their rendering.
//!
//! A cloud is read from the vertices of a binary glTF (`.glb`, `.vrm`) or of an
//! ASCII point cloud (`.pcd`). Single precision numbers are carried as their bit
//! patterns throughout, see [`scalar`].

pub mod bytes;
pub mod camera;
pub mod cloud;
pub mod frame;
pub mod gltf;
pub mod json;
pub mod lane;
pub mod pcd;
pub mod point;
pub mod sample;
pub mod scalar;
pub mod text;

