//! The error taxonomy of the library.
//!
//! Permission and capability errors surface to a running workflow as
//! catchable failures; install and uninstall errors go back to the
//! management caller as typed results.

use crate::permission::{Permission, SpecPermission};
use vstd::prelude::*;

verus! {

/// Everything that can go wrong while managing or running workflows.
#[derive(Debug)]
pub enum WorkflowError {
    /// A host call was not covered by the run's grants; carries the first
    /// required permission the grants do not cover.
    PermissionDenied(Permission),
    /// A host call named a capability function id that the run's resolved
    /// capability set does not contain; carries that id.  Distinct from a
    /// failure thrown inside an external bundle.
    CapabilityNotFound(String),
    /// An external bundle's own code threw; carries the thrown value's
    /// text, propagated verbatim.
    BridgeInvocationFailed(String),
    /// An install found the plugin package id already registered; carries
    /// that id.
    AlreadyInstalled(String),
    /// An uninstall or load named a plugin package id with no record;
    /// carries that id.
    NotFound(String),
    /// A filesystem step failed; carries the path and the cause.
    IoFailure { path: String, cause: String },
}

/// The mathematical value of a [`WorkflowError`].
pub ghost enum SpecWorkflowError {
    PermissionDenied(SpecPermission),
    CapabilityNotFound(Seq<char>),
    BridgeInvocationFailed(Seq<char>),
    AlreadyInstalled(Seq<char>),
    NotFound(Seq<char>),
    IoFailure { path: Seq<char>, cause: Seq<char> },
}

impl View for WorkflowError {
    type V = SpecWorkflowError;

    open spec fn view(&self) -> SpecWorkflowError {
        match self {
            WorkflowError::PermissionDenied(p) => SpecWorkflowError::PermissionDenied(p@),
            WorkflowError::CapabilityNotFound(id) => SpecWorkflowError::CapabilityNotFound(id@),
            WorkflowError::BridgeInvocationFailed(cause) => SpecWorkflowError::BridgeInvocationFailed(
                cause@,
            ),
            WorkflowError::AlreadyInstalled(id) => SpecWorkflowError::AlreadyInstalled(id@),
            WorkflowError::NotFound(id) => SpecWorkflowError::NotFound(id@),
            WorkflowError::IoFailure { path, cause } => SpecWorkflowError::IoFailure {
                path: path@,
                cause: cause@,
            },
        }
    }
}

} // verus!
