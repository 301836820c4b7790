//! The errors of the cryptographic modules.

use vstd::prelude::*;

use crate::util::hex::HexError;

verus! {

/// What can go wrong with keys, signatures and secrets.
#[derive(Debug, Clone, PartialEq, Eq)]
pub enum CryptoError {
    Io(String),
    MachineFingerprint(String),
    KeyGeneration(String),
    Signing(String),
    Encryption(String),
    Decryption,
    /// The store needs a password, or the password is not the right one.
    WrongPassword,
    Keystore(String),
    InvalidSignature,
    Hex(HexError),
}

/// An error as contracts speak of it: its kind and its text.
pub enum CryptoFailure {
    Io(Seq<char>),
    MachineFingerprint(Seq<char>),
    KeyGeneration(Seq<char>),
    Signing(Seq<char>),
    Encryption(Seq<char>),
    Decryption,
    WrongPassword,
    Keystore(Seq<char>),
    InvalidSignature,
    Hex(HexError),
}

impl View for CryptoError {
    type V = CryptoFailure;

    open spec fn view(&self) -> CryptoFailure {
        match *self {
            CryptoError::Io(m) => CryptoFailure::Io(m@),
            CryptoError::MachineFingerprint(m) => CryptoFailure::MachineFingerprint(m@),
            CryptoError::KeyGeneration(m) => CryptoFailure::KeyGeneration(m@),
            CryptoError::Signing(m) => CryptoFailure::Signing(m@),
            CryptoError::Encryption(m) => CryptoFailure::Encryption(m@),
            CryptoError::Decryption => CryptoFailure::Decryption,
            CryptoError::WrongPassword => CryptoFailure::WrongPassword,
            CryptoError::Keystore(m) => CryptoFailure::Keystore(m@),
            CryptoError::InvalidSignature => CryptoFailure::InvalidSignature,
            CryptoError::Hex(e) => CryptoFailure::Hex(e),
        }
    }
}

/// Errors are told apart by their kinds and their texts.
pub proof fn law_errors_are_told_apart(a: CryptoError, b: CryptoError)
    requires
        a@ == b@,
    ensures
        match (a, b) {
            (CryptoError::Io(m), CryptoError::Io(n)) => m@ == n@,
            (CryptoError::MachineFingerprint(m), CryptoError::MachineFingerprint(n)) => m@ == n@,
            (CryptoError::KeyGeneration(m), CryptoError::KeyGeneration(n)) => m@ == n@,
            (CryptoError::Signing(m), CryptoError::Signing(n)) => m@ == n@,
            (CryptoError::Encryption(m), CryptoError::Encryption(n)) => m@ == n@,
            (CryptoError::Decryption, CryptoError::Decryption) => true,
            (CryptoError::WrongPassword, CryptoError::WrongPassword) => true,
            (CryptoError::Keystore(m), CryptoError::Keystore(n)) => m@ == n@,
            (CryptoError::InvalidSignature, CryptoError::InvalidSignature) => true,
            (CryptoError::Hex(e), CryptoError::Hex(f)) => e == f,
            _ => false,
        },
        a matches CryptoError::Keystore(m) ==> a@ == CryptoFailure::Keystore(m@),
        a is WrongPassword <==> a@ is WrongPassword,
        a is Decryption <==> a@ is Decryption,
        a is InvalidSignature <==> a@ is InvalidSignature,
        a is Hex <==> a@ is Hex,
{
}

} // verus!
