//! The cryptographic base of a node: its identity, signatures, end-to-end
//! encryption and the store of its master secret.

pub mod aead;
pub mod encrypt;
pub mod error;
pub mod hash;
pub mod identity;
pub mod keys;
pub mod keystore;
pub mod machine;
pub mod primitives;
pub mod sign;
pub mod verify;

pub use encrypt::EncryptedMessage;
pub use error::CryptoError;
pub use identity::{AccountId, Identity};
pub use keys::{EncryptionKeypair, PublicKeys, SigningKeypair};
pub use keystore::Keystore;
pub use sign::SignedMessage;
