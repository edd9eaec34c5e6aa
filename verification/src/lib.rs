//! Verified core of an inference extension: storage formats, loaders,
//! transport decisions and query logic.

pub mod client;
pub mod compute;
pub mod float_bits;
pub mod inference;
pub mod le;
pub mod models;
pub mod order;
pub mod pg;
pub mod ternary;
pub mod text;
pub mod vindex;
