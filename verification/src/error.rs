//! The error type of the library.
use vstd::prelude::*;
use crate::sandbox::executor::SandboxError;
use crate::text::{extend_str, string_of};

verus! {

/// The error type for the Hephaestus system. Errors raised by outside
/// services (the database, the file system, the parser, JSON) carry their
/// message.
#[derive(Debug)]
pub enum HephaestusError {
    /// Errors related to SQLite database operations.
    Database(String),
    /// Errors related to file I/O operations.
    Io(String),
    /// Errors related to Tree-sitter parsing.
    TreeSitter(String),
    /// Errors related to JSON serialization/deserialization.
    Json(String),
    /// Errors related to sandbox execution.
    Sandbox(SandboxError),
    /// Custom errors for specific domain logic.
    InvalidInput(String),
    NotFound(String),
    NotPermitted(String),
    Configuration(String),
    Internal(String),
}

impl HephaestusError {
    /// The text the error displays.
    pub open spec fn message_spec(&self) -> Seq<char> {
        match self {
            HephaestusError::Database(e) => "Database error: "@ + e@,
            HephaestusError::Io(e) => "I/O error: "@ + e@,
            HephaestusError::TreeSitter(e) => "Tree-sitter error: "@ + e@,
            HephaestusError::Json(e) => "JSON error: "@ + e@,
            HephaestusError::Sandbox(e) => "Sandbox error: "@ + e.message_spec(),
            HephaestusError::InvalidInput(s) => "Invalid input: "@ + s@,
            HephaestusError::NotFound(s) => "Resource not found: "@ + s@,
            HephaestusError::NotPermitted(s) => "Operation not permitted: "@ + s@,
            HephaestusError::Configuration(s) => "Configuration error: "@ + s@,
            HephaestusError::Internal(s) => "Internal inconsistency: "@ + s@,
        }
    }

    /// The text the error displays.
    pub fn message(&self) -> (m: String)
        ensures
            m@ == self.message_spec(),
    {
        let mut out: Vec<char> = Vec::new();
        match self {
            HephaestusError::Database(e) => {
                extend_str(&mut out, "Database error: ");
                extend_str(&mut out, e.as_str());
            },
            HephaestusError::Io(e) => {
                extend_str(&mut out, "I/O error: ");
                extend_str(&mut out, e.as_str());
            },
            HephaestusError::TreeSitter(e) => {
                extend_str(&mut out, "Tree-sitter error: ");
                extend_str(&mut out, e.as_str());
            },
            HephaestusError::Json(e) => {
                extend_str(&mut out, "JSON error: ");
                extend_str(&mut out, e.as_str());
            },
            HephaestusError::Sandbox(e) => {
                extend_str(&mut out, "Sandbox error: ");
                let m = e.message();
                extend_str(&mut out, m.as_str());
            },
            HephaestusError::InvalidInput(s) => {
                extend_str(&mut out, "Invalid input: ");
                extend_str(&mut out, s.as_str());
            },
            HephaestusError::NotFound(s) => {
                extend_str(&mut out, "Resource not found: ");
                extend_str(&mut out, s.as_str());
            },
            HephaestusError::NotPermitted(s) => {
                extend_str(&mut out, "Operation not permitted: ");
                extend_str(&mut out, s.as_str());
            },
            HephaestusError::Configuration(s) => {
                extend_str(&mut out, "Configuration error: ");
                extend_str(&mut out, s.as_str());
            },
            HephaestusError::Internal(s) => {
                extend_str(&mut out, "Internal inconsistency: ");
                extend_str(&mut out, s.as_str());
            },
        }
        string_of(out.as_slice())
    }
}

} // verus!
