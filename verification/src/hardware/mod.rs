//! The three groups of hardware settings and their updates.
pub mod cpu;
pub mod gpu;
pub mod platform;
