//! Model files and architectures.

pub mod architectures;
pub mod error;
pub mod fp8;
pub mod gguf_quantized;
