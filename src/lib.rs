//! Fabric partition control and accelerator BMC bootstrap.
pub mod rest;
pub mod sm;
pub mod xpu;
pub mod xpuctl;
