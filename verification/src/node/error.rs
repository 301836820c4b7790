//! The general errors of the node.

use vstd::prelude::*;

verus! {

/// What can go wrong, by the part of the node in which it did.
#[derive(Debug, Clone, PartialEq, Eq)]
pub enum VoidError {
    Network(String),
    Crypto(String),
    Database(String),
    Discovery(String),
    Serialization(String),
    NotFound(String),
    PermissionDenied(String),
}

/// A result with a general error.
pub type VoidResult<T> = Result<T, VoidError>;

} // verus!
