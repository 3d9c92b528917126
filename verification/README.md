# RTX Vulkan Engine

A path tracing engine, with its logic in a library that Verus verifies.

- `src/` is the library: the model cache and its file layout (`codec`, `records`, `text`,
  `layouts`, `texture`, `cache`), reading models (`gltf_sources`, `mesh_import`, `rig_import`,
  `images`, `paths`), the scene (`scene`, `removal`, `ops`, `capacity`, and what is proved of them
  in `scene_laws` and `removal_laws`), animation (`player`, `pose`), and the plans by which the
  renderer sets up and drives the device (`device`, `swapchain`, `alignment`, `pipeline`,
  `descriptors`, `groups`, `skinning`, `image_plan`, `lifecycle`, `frame`, `input`).
- `app/` is the program around it: the window, the graphics device, files, and floating-point
  arithmetic. Numbers cross into the library as their bits.
- `tests/` runs the library.
