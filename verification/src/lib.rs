//! Third-party notice generation and change detection.
//!
//! The crate aggregates dependency records from two package ecosystems,
//! resolves each dependency's license disclosure (short identifier or full
//! license text), renders a deterministic plain-text notice document, and
//! compares it against a previously persisted document after normalizing
//! line endings.

pub mod detect;
pub mod license_file;
pub mod npm;
pub mod render;
pub mod resolve;
pub mod text;
