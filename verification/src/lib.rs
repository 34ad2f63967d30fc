//! Verified core of the Hephaestus self-repair framework.
pub mod text;
pub mod investigation;
pub mod ast;
pub mod error;
pub mod sandbox;
pub mod orchestration;
pub mod memory;
pub mod keyed;
pub mod telemetry;
pub mod interceptor;
pub mod tribunal;
pub mod digest;
