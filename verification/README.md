# fyrox-graphics-wgpu

The decisions of a wgpu rendering backend, verified with Verus.

The engine's matrices and shaders follow OpenGL. wgpu differs: it clips depth below 0 instead of -1,
has no vertex format that hands integers to a shader as floats, pads the rows of textures that are
read back to 256 bytes, and lets a write to a buffer take effect ahead of all commands submitted with
it. This library bridges the differences. `src/` holds what can be decided without a graphics card,
each function with a contract that Verus proves:

- wrapping vertex entry points so that they remap the depth they write (`vertex_depth`),
- laying out vertices and converting integer attributes to floats (`vertex_format`, `vertex_layout`,
  `vertex_conversion`, `geometry_buffer`),
- scheduling readbacks and taking the padding out of what was read (`read_buffer`),
- tracing shadow rays, step by step (`raytracing`, `shadow_tracer`),
- copying depth by drawing (`depth_copy`).

`app/` is the ordinary Rust around it that creates buffers, textures and pipelines with wgpu and
records the passes. `tests/` run the library with the real crates linked.

Floating point numbers are held as their bits (`float_bits::F32Bits`). The conversion of integers to
them is proved to round to the nearest number, to even where two are equally near.
