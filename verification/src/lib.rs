//! A capability-based workflow host library.
//!
//! Workflows are small scripts that call named capability functions.  Every
//! call is gated by a permission check of the run's granted permissions
//! against the capability's declared requirement.  Capability packages are
//! either compiled in (internal) or installed at runtime from untrusted
//! bundles (external); the external lifecycle (install, uninstall, scan,
//! load) and the static extraction of callable function names from bundle
//! text live here as well, together with the per-run sandbox state machine
//! that records one revisioned result per run.

pub mod bridge;
pub mod capability;
pub mod catalog;
pub mod docscan;
pub mod errors;
pub mod extract;
pub mod jsdoc;
pub mod jsonfix;
pub mod loader;
pub mod mail;
pub mod paths;
pub mod permission;
pub mod runtime;
pub mod search;
pub mod store;
pub mod sysconfig;
pub mod text;
pub mod workflows;
