//! Shader version selection, CPU-side images, sprite batching and the
//! single-step polling of frame and file futures.

pub mod shader_version;
pub mod texture;
pub mod decode;
pub mod batch;
pub mod exec;
