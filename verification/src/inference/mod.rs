//! Decoding: what is generated, kept and recomputed from step to step.

pub mod error;
pub mod engine;
pub mod greedy;
pub mod kv_cache;
pub mod layer_graph;
pub mod matrix;
pub mod plan;
pub mod residual_store;
pub mod target_delta;
pub mod weights;
