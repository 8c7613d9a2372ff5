//! The on-disk envelope: version, salt, nonce, and ciphertext, each byte
//! field carried as base64 text inside a JSON object. This module holds the
//! envelope value and its base64 codecs; reading and writing the file, and
//! the JSON around the envelope, belong to the surrounding program.

use vstd::prelude::*;

use crate::errors::VaultError;

verus! {

/// One saved vault: the whole file is replaced by a fresh envelope — new
/// salt, new key, new nonce, new ciphertext — on every successful save.
pub struct EncryptedStore {
    pub version: u8,
    /// Base64-encoded 16-byte salt for key derivation.
    pub argon2_salt: String,
    /// Base64-encoded 12-byte nonce for the cipher.
    pub encryption_nonce: String,
    /// Base64-encoded ciphertext with its authentication tag.
    pub encrypted_data: String,
}

/// The bytes that standard base64 (with padding) reads a string as, if any;
/// decoding is deterministic in the text alone.
pub uninterp spec fn b64_parse(s: Seq<char>) -> Option<Seq<u8>>;

/// Relies on `base64::engine::general_purpose::STANDARD.encode`: the standard
/// alphabet with padding, which the matching decode inverts exactly.
#[verifier::external_body]
fn b64_encode(data: &Vec<u8>) -> (r: String)
    ensures
        b64_parse(r@) == Some(data@),
{
    base64::Engine::encode(&base64::engine::general_purpose::STANDARD, data.as_slice())
}

/// Relies on `base64::engine::general_purpose::STANDARD.decode`:
/// deterministic, and it rejects exactly the strings no encoding produces.
#[verifier::external_body]
fn b64_decode(encoded: &str) -> (r: Option<Vec<u8>>)
    ensures
        match r {
            Some(b) => b64_parse(encoded@) == Some(b@),
            None => b64_parse(encoded@) is None,
        },
{
    match base64::Engine::decode(&base64::engine::general_purpose::STANDARD, encoded) {
        Ok(v) => Some(v),
        Err(_) => None,
    }
}

/// Encodes a salt for the envelope.
pub fn encode_salt(salt: &Vec<u8>) -> (r: String)
    ensures
        b64_parse(r@) == Some(salt@),
{
    b64_encode(salt)
}

/// Encodes a nonce for the envelope.
pub fn encode_nonce(nonce: &Vec<u8>) -> (r: String)
    ensures
        b64_parse(r@) == Some(nonce@),
{
    b64_encode(nonce)
}

/// Encodes ciphertext for the envelope.
pub fn encode_encrypted_data(data: &Vec<u8>) -> (r: String)
    ensures
        b64_parse(r@) == Some(data@),
{
    b64_encode(data)
}

fn decode_b64_field(encoded: &str) -> (r: Result<Vec<u8>, VaultError>)
    ensures
        match r {
            Ok(b) => b64_parse(encoded@) == Some(b@),
            Err(e) => e is FormatError && b64_parse(encoded@) is None,
        },
{
    match b64_decode(encoded) {
        Some(v) => Ok(v),
        None => {
            let mut msg = String::new();
            msg.append("invalid base64 data");
            Err(VaultError::FormatError(msg))
        },
    }
}

/// Decodes the envelope's salt field.
pub fn decode_salt(encoded: &str) -> (r: Result<Vec<u8>, VaultError>)
    ensures
        match r {
            Ok(b) => b64_parse(encoded@) == Some(b@),
            Err(e) => e is FormatError && b64_parse(encoded@) is None,
        },
{
    decode_b64_field(encoded)
}

/// Decodes the envelope's nonce field.
pub fn decode_nonce(encoded: &str) -> (r: Result<Vec<u8>, VaultError>)
    ensures
        match r {
            Ok(b) => b64_parse(encoded@) == Some(b@),
            Err(e) => e is FormatError && b64_parse(encoded@) is None,
        },
{
    decode_b64_field(encoded)
}

/// Decodes the envelope's ciphertext field.
pub fn decode_encrypted_data(encoded: &str) -> (r: Result<Vec<u8>, VaultError>)
    ensures
        match r {
            Ok(b) => b64_parse(encoded@) == Some(b@),
            Err(e) => e is FormatError && b64_parse(encoded@) is None,
        },
{
    decode_b64_field(encoded)
}

} // verus!
