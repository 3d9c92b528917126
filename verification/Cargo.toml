[package]
name = "rtx_vulkan_engine"
version = "0.1.0"
edition = "2021"
publish = false

[dependencies]
anyhow = "1"
bytemuck = "1"
cgmath = "0.18"
gltf = { version = "1", features = ["KHR_materials_transmission", "KHR_materials_ior", "KHR_materials_specular", "KHR_materials_emissive_strength"] }
indexmap = "2"
log = "0.4"
pretty_env_logger = "0.5"
thiserror = "*"
vulkanalia = { version = "*", features = ["libloading", "provisional", "window"] }
winit = "0.29"
