//! Skeletal animation for a real-time renderer: the model-space transform of
//! every bone of a skinned model, and one GPU buffer that holds them for all
//! animated meshes of a scene.
pub mod audio;
pub mod matrix;
pub mod scene;
pub mod skinning;
pub mod texture_compression;
