//! Keeping `residual/` consistent across layout changes.

pub mod migration;
