//! The errors of the reputation modules.

use vstd::prelude::*;

use crate::crypto::error::CryptoError;

verus! {

/// What can go wrong with reputations.
#[derive(Debug, Clone, PartialEq, Eq)]
pub enum ReputationError {
    /// Nothing went wrong.
    Fine,
    Db(String),
    Crypto(CryptoError),
    /// A signed statement was not sent by its signer.
    SignerMismatch,
    /// A node complains about itself.
    SelfReport,
    Deserialize(String),
}

} // verus!
