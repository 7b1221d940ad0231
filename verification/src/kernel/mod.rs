//! Kernel services.
pub mod boot;
pub mod degraded;
