//! Reads a Rust compiler's error output into typed diagnostics, and decides
//! when a watched project is rebuilt.
//!
//! - `rust`: the diagnostic type, the grammar of one diagnostic block, and its text form.
//! - `cargo`: the scanner that cuts error output into blocks, and the result of a run.
//! - `watcher`: the controller of watch sessions, as a state machine.
//! - `round_trip`: proofs that rendered diagnostics read back unchanged.
//! - `text`: characters, digits and strings.

pub mod cargo;
pub mod round_trip;
pub mod rust;
pub mod text;
pub mod watcher;
