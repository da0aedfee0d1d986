//! The engine's error taxonomy: kinds, not types. Every operation surfaces
//! its failure as one of these, together with a human-readable message.

use vstd::prelude::*;

verus! {

/// What went wrong.
#[derive(Clone, Copy, Debug, PartialEq, Eq, Structural)]
pub enum ErrorKind {
    /// Creating a name that already exists.
    Duplicate,
    /// Referencing a missing store, container, snapshot or id.
    NotFound,
    /// An update blocked by a non-mapping intermediate node.
    PathConflict,
    /// An unrecognised dispatch operation.
    UnknownOp,
    /// A payload of the wrong shape for the operation.
    SerializationError,
    /// A memory, execution-time or counter budget exhausted.
    QuotaExceeded,
    /// A security-gate denial.
    PolicyViolation,
    /// A collaborator temporarily unavailable.
    Transient,
}

impl ErrorKind {
    /// A human-readable message for the kind.
    pub fn message(&self) -> &'static str {
        match self {
            ErrorKind::Duplicate => "name already exists",
            ErrorKind::NotFound => "no such store, container, snapshot or id",
            ErrorKind::PathConflict => "a non-mapping node blocks the path",
            ErrorKind::UnknownOp => "unknown operation",
            ErrorKind::SerializationError => "payload has the wrong shape",
            ErrorKind::QuotaExceeded => "a resource budget is exhausted",
            ErrorKind::PolicyViolation => "denied by the security policy",
            ErrorKind::Transient => "temporarily unavailable",
        }
    }
}

} // verus!
