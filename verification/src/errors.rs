//! Error taxonomy of the vault: every failure surfaces as one of these and is
//! reported at the shell boundary; none ends the session.

use vstd::prelude::*;

verus! {

/// What can go wrong while loading, unlocking, or saving a vault.
#[derive(Debug)]
pub enum VaultError {
    /// The vault file could not be read or written, or no path was set.
    IoError(String),
    /// The file is empty or not a valid envelope.
    FormatError(String),
    /// The authentication tag did not verify: wrong master password or a
    /// corrupted file, indistinguishable by design.
    AuthenticationFailure,
    /// Key derivation or encryption failed inside the cipher.
    CryptoError(String),
}

impl VaultError {
    /// A one-line description, for display at the shell boundary.
    pub fn message(&self) -> (r: String)
        ensures
            match self {
                VaultError::IoError(m) => r@ == m@,
                VaultError::FormatError(m) => r@ == m@,
                VaultError::AuthenticationFailure => r@ == "Decryption failed - invalid password"@,
                VaultError::CryptoError(m) => r@ == m@,
            },
    {
        match self {
            VaultError::IoError(m) => m.clone(),
            VaultError::FormatError(m) => m.clone(),
            VaultError::AuthenticationFailure => {
                let mut r = String::new();
                r.append("Decryption failed - invalid password");
                r
            },
            VaultError::CryptoError(m) => m.clone(),
        }
    }
}

} // verus!
