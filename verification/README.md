# macroquad (verified core)

The CPU-side logic of macroquad's texture handling, written in Verus:

- `src/shader_version.rs`: GLSL dialect selection and feature tables.
- `src/texture.rs`: RGBA images — fill, per-pixel read/write, bulk update,
  sub-images, row flipping, and the laws relating them.
- `src/decode.rs`: decoding image files through the `image` crate.
- `src/batch.rs`: grouping sprites by texture with their quad indices, and
  the texture-atlas bookkeeping.
- `src/exec.rs`: the single-step polling of frame and file futures.

`app/` holds what needs floating point, the GPU (miniquad) or the operating
system: colour and rectangle conversions, sprite geometry, textures, file
I/O, the `Future` impls and a small demo loop.
