//! Weight containers, kernel geometry and device bookkeeping.

pub mod backend;
pub mod bitlinear;
pub mod buffers;
pub mod error;
pub mod gemm;
pub mod heads;
pub mod kquant;
pub mod prefill;
