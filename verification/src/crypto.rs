//! Password-based key derivation and authenticated encryption.
//!
//! A fresh salt, hence a fresh key, is made for every save, so a nonce is
//! never used twice under one key even though nonces are drawn at random.

use vstd::prelude::*;

use crate::errors::VaultError;
use chacha20poly1305::aead::Aead;
use chacha20poly1305::KeyInit;
use rand::TryRng;

verus! {

pub const SALT_LEN: usize = 16;

pub const NONCE_LEN: usize = 12;

pub const KEY_LEN: usize = 32;

pub const TAG_LEN: usize = 16;

/// The key that Argon2id derives for a password and salt; it depends on those
/// two alone, so the same password and salt always yield the same key.
pub uninterp spec fn kdf(password: Seq<char>, salt: Seq<u8>) -> Seq<u8>;

/// The plaintext a ciphertext carries under a key and nonce, if its tag
/// verifies; ChaCha20-Poly1305 decryption is deterministic in those three
/// alone.
pub uninterp spec fn aead_open(key: Seq<u8>, nonce: Seq<u8>, ct: Seq<u8>) -> Option<Seq<u8>>;

/// Round trip: a ciphertext carries at most one plaintext under a key and
/// nonce, so what `decrypt` returns for an output of `encrypt` is exactly
/// what was encrypted.
pub proof fn lemma_aead_round_trip(
    key: Seq<u8>,
    nonce: Seq<u8>,
    plain: Seq<u8>,
    decrypted: Seq<u8>,
    ct: Seq<u8>,
)
    requires
        aead_open(key, nonce, ct) == Some(plain),
        aead_open(key, nonce, ct) == Some(decrypted),
    ensures
        decrypted == plain,
{
}

/// Relies on `argon2::Argon2::hash_password_into` (Argon2id, default
/// parameters): fills the output from the password bytes and salt alone, and
/// fails only on parameter or memory errors, never on a "wrong" password.
#[verifier::external_body]
pub fn derive_key(password: &str, salt: &Vec<u8>) -> (r: Result<Vec<u8>, VaultError>)
    requires
        salt@.len() == SALT_LEN,
    ensures
        match r {
            Ok(key) => key@ == kdf(password@, salt@) && key@.len() == KEY_LEN,
            Err(e) => e is CryptoError,
        },
{
    let argon2 = argon2::Argon2::default();
    let mut key = [0u8; 32];
    match argon2.hash_password_into(password.as_bytes(), salt.as_slice(), &mut key) {
        Ok(()) => Ok(key.to_vec()),
        Err(e) => Err(
            VaultError::CryptoError(
                format!("Failed to derive encryption key using Argon2id: {}", e),
            ),
        ),
    }
}

/// Relies on `rand::rngs::SysRng::try_fill_bytes`: fills the buffer from the
/// operating system's randomness source. Nothing is assumed of the bytes
/// beyond their count.
#[verifier::external_body]
pub fn generate_salt() -> (r: Result<Vec<u8>, VaultError>)
    ensures
        match r {
            Ok(salt) => salt@.len() == SALT_LEN,
            Err(e) => e is CryptoError,
        },
{
    let mut salt = [0u8; 16];
    match rand::rngs::SysRng.try_fill_bytes(&mut salt) {
        Ok(()) => Ok(salt.to_vec()),
        Err(e) => Err(VaultError::CryptoError(format!("{}", e))),
    }
}

/// Relies on `rand::rngs::SysRng::try_fill_bytes`, as `generate_salt` does.
#[verifier::external_body]
pub fn generate_nonce() -> (r: Result<Vec<u8>, VaultError>)
    ensures
        match r {
            Ok(nonce) => nonce@.len() == NONCE_LEN,
            Err(e) => e is CryptoError,
        },
{
    let mut nonce_bytes = [0u8; 12];
    match rand::rngs::SysRng.try_fill_bytes(&mut nonce_bytes) {
        Ok(()) => Ok(nonce_bytes.to_vec()),
        Err(e) => Err(VaultError::CryptoError(format!("{}", e))),
    }
}

/// Relies on `chacha20poly1305::ChaCha20Poly1305` through `aead::Aead::
/// encrypt`: authenticated encryption whose output carries exactly the input
/// under the same key and nonce, with a sixteen-byte tag appended.
#[verifier::external_body]
pub fn encrypt(data: &Vec<u8>, key: &Vec<u8>, nonce: &Vec<u8>) -> (r: Result<Vec<u8>, VaultError>)
    requires
        key@.len() == KEY_LEN,
        nonce@.len() == NONCE_LEN,
    ensures
        match r {
            Ok(ct) => aead_open(key@, nonce@, ct@) == Some(data@) && ct@.len() == data@.len()
                + TAG_LEN,
            Err(e) => e is CryptoError,
        },
{
    let cipher = match chacha20poly1305::ChaCha20Poly1305::new_from_slice(key.as_slice()) {
        Ok(c) => c,
        Err(_) => return Err(VaultError::CryptoError("Encryption failed".to_string())),
    };
    let nonce = match chacha20poly1305::Nonce::try_from(nonce.as_slice()) {
        Ok(n) => n,
        Err(_) => return Err(VaultError::CryptoError("Encryption failed".to_string())),
    };
    match cipher.encrypt(&nonce, data.as_slice()) {
        Ok(ct) => Ok(ct),
        Err(_) => Err(VaultError::CryptoError("Encryption failed".to_string())),
    }
}

/// Relies on `chacha20poly1305::ChaCha20Poly1305` through `aead::Aead::
/// decrypt`: returns the carried plaintext exactly when the tag verifies; a
/// wrong key, wrong nonce, and a corrupted ciphertext are indistinguishable.
#[verifier::external_body]
pub fn decrypt(encrypted_data: &Vec<u8>, key: &Vec<u8>, nonce: &Vec<u8>) -> (r: Result<
    Vec<u8>,
    VaultError,
>)
    requires
        key@.len() == KEY_LEN,
        nonce@.len() == NONCE_LEN,
    ensures
        match r {
            Ok(plain) => aead_open(key@, nonce@, encrypted_data@) == Some(plain@),
            Err(e) => e is AuthenticationFailure && aead_open(key@, nonce@, encrypted_data@)
                is None,
        },
{
    let cipher = match chacha20poly1305::ChaCha20Poly1305::new_from_slice(key.as_slice()) {
        Ok(c) => c,
        Err(_) => return Err(VaultError::AuthenticationFailure),
    };
    let nonce = match chacha20poly1305::Nonce::try_from(nonce.as_slice()) {
        Ok(n) => n,
        Err(_) => return Err(VaultError::AuthenticationFailure),
    };
    match cipher.decrypt(&nonce, encrypted_data.as_slice()) {
        Ok(plain) => Ok(plain),
        Err(_) => Err(VaultError::AuthenticationFailure),
    }
}

} // verus!
