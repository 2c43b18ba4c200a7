//! The error taxonomy shared by every component of the engine.
//!
//! Every fallible operation in the crate reports one of exactly these four
//! kinds; there is no generic or untyped failure.

use vstd::prelude::*;

verus! {

/// The four failure kinds of the engine, one per POSIX errno the protocol
/// layer reports: no such entry, operation not supported, permission denied,
/// and directory not empty.
#[derive(Clone, Copy, Debug, PartialEq, Eq, Structural)]
pub enum FsError {
    /// No such child or path element.
    NotFound,
    /// The operation is not meaningful for this node kind.
    NotSupported,
    /// The sandbox naming convention refused the operation.
    PermissionDenied,
    /// A directory was deleted while it still had children.
    NotEmpty,
}

} // verus!
