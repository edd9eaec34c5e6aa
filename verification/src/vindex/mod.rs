//! The on-disk model index.

pub mod bitnet;
pub mod bitnet_loader;
pub mod dtype;
pub mod error;
pub mod filenames;
pub mod residual_cache;
