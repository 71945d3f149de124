# fiberslice

The G-code side of a 3D printing slicer and viewer, as a verified library.

- `src/gcode`: reading G-code text into blocks of instructions that share a print state
  (layer, print type, mesh), writing instructions back as G-code, grouping tool path blocks
  by layer, and planning the mesh pieces of a block of strokes.
- `src/layer.rs`, `src/render`: the bookkeeping of layer meshes and vertex buffers: which
  vertices belong to which part, how a buffer grows and shrinks, the fixed buffer layouts,
  and mesh trees placed into buffers.
- `src/hitbox.rs`: the search for the hit box a ray reaches first.
- `src/settings`: the settings tree and its flattening into settings by dotted path.
- `src/picking.rs`, `src/ui.rs`, `src/tools.rs`, `src/prelude`: small state of the viewer.
- `app/`: a command line program that reads a G-code file and reports its tool path by
  layer, with the floating point geometry (strokes, box meshes, rays), YAML settings files
  and shared state behind locks.
