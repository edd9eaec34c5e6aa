//! Client of the model server: where requests go, what responses mean, and
//! the data that they carry.

pub mod error;
pub mod join;
pub mod transport;
pub mod types;
