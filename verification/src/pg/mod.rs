//! Index pages and the logic of the SQL functions.

pub mod describe;
pub mod error;
pub mod index_build;
pub mod model_mgmt;
pub mod options;
pub mod pages;
pub mod registry;
pub mod scan;
pub mod similar;
pub mod tokens;
pub mod walk;
