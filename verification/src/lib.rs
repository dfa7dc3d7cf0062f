//! A verified core for a pseudo-terminal (PTY) session manager.
//!
//! The library models session creation, input/output streaming, resize and
//! teardown as verified state-machine logic over plain data, together with
//! the pure parsing and formatting helpers that surround it.  The blocking
//! OS work (opening a pty, spawning a child, reading and writing its
//! streams) is left to the embedding application, which drives the verified
//! decision functions and hands their outcomes back as plain values.

pub mod claude;
pub mod config;
pub mod errors;
pub mod git;
pub mod listing;
pub mod reader;
pub mod registry;
pub mod result;
pub mod text;

pub use errors::PtyError;
pub use result::CommandResult;
