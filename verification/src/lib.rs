//! amppo: switches between performance modes of a laptop by writing the
//! processor, graphics card and firmware settings that each mode names to
//! their sysfs files.
//!
//! The library decides what is read and written, in which order, and when
//! an update stops; the program around it performs the file operations.
pub mod config;
pub mod hardware;
pub mod protocol;
pub mod state;
pub mod sysfs;
pub mod text;
