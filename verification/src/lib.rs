//! Parsing and decision logic of an AMD GPU telemetry dashboard.

pub mod text;
pub mod telem;
pub mod discover;
pub mod severity;
pub mod dashboard;
