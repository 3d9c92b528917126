//! The engine's logic that does not touch the graphics device: the model cache, the scene and its
//! models, animation playback, and the plans by which the renderer sets up its resources.
pub mod alignment;
pub mod cache;
pub mod capacity;
pub mod codec;
pub mod common;
pub mod decimal;
pub mod descriptors;
pub mod device;
pub mod errors;
pub mod frame;
pub mod gltf_sources;
pub mod groups;
pub mod image_plan;
pub mod images;
pub mod input;
pub mod layouts;
pub mod lifecycle;
pub mod math;
pub mod mesh_import;
pub mod ops;
pub mod paths;
pub mod pipeline;
pub mod player;
pub mod pose;
pub mod records;
pub mod removal;
pub mod removal_laws;
pub mod rig_import;
pub mod scene;
pub mod scene_laws;
pub mod skinning;
pub mod swapchain;
pub mod text;
pub mod texture;
