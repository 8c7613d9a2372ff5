//! Tests for the cryptographic pipeline: key derivation, authenticated
//! encryption, base64 codecs, envelope sealing and opening, and the error
//! taxonomy. These run against the real outside crates.

use passmgr::crypto::{decrypt, derive_key, encrypt, generate_nonce, generate_salt};
use passmgr::errors::VaultError;
use passmgr::manager::Manager;
use passmgr::storage::{decode_nonce, decode_salt, encode_encrypted_data, encode_nonce, encode_salt};

#[test]
fn test_aead_round_trip() {
    let salt = generate_salt().expect("salt");
    let nonce = generate_nonce().expect("nonce");
    let key = derive_key("P", &salt).expect("key");

    let plaintext: Vec<u8> = b"{\"github\":\"gh_secret\"}".to_vec();
    let ciphertext = encrypt(&plaintext, &key, &nonce).expect("encrypt");
    assert_eq!(ciphertext.len(), plaintext.len() + 16);
    let decrypted = decrypt(&ciphertext, &key, &nonce).expect("decrypt");
    assert_eq!(decrypted, plaintext);
}

#[test]
fn test_decrypt_wrong_password_fails() {
    let salt = generate_salt().expect("salt");
    let nonce = generate_nonce().expect("nonce");
    let key = derive_key("right", &salt).expect("key");
    let wrong_key = derive_key("wrong", &salt).expect("key");

    let plaintext: Vec<u8> = b"secret data".to_vec();
    let ciphertext = encrypt(&plaintext, &key, &nonce).expect("encrypt");

    let result = decrypt(&ciphertext, &wrong_key, &nonce);
    assert!(matches!(result, Err(VaultError::AuthenticationFailure)));
}

#[test]
fn test_decrypt_tampered_ciphertext_fails() {
    let salt = generate_salt().expect("salt");
    let nonce = generate_nonce().expect("nonce");
    let key = derive_key("P", &salt).expect("key");

    let plaintext: Vec<u8> = b"secret data".to_vec();
    let mut ciphertext = encrypt(&plaintext, &key, &nonce).expect("encrypt");
    ciphertext[0] = ciphertext[0].wrapping_add(1);

    let result = decrypt(&ciphertext, &key, &nonce);
    assert!(matches!(result, Err(VaultError::AuthenticationFailure)));
}

#[test]
fn test_derive_key_deterministic() {
    let salt: Vec<u8> = vec![7u8; 16];
    let k1 = derive_key("master", &salt).expect("key");
    let k2 = derive_key("master", &salt).expect("key");
    assert_eq!(k1, k2);
    assert_eq!(k1.len(), 32);

    let other_salt: Vec<u8> = vec![8u8; 16];
    let k3 = derive_key("master", &other_salt).expect("key");
    assert_ne!(k1, k3);
}

#[test]
fn test_base64_codecs() {
    let salt: Vec<u8> = vec![0u8; 16];
    let encoded = encode_salt(&salt);
    assert_eq!(encoded, "AAAAAAAAAAAAAAAAAAAAAA==");
    assert_eq!(decode_salt(&encoded).expect("decode"), salt);

    let nonce: Vec<u8> = vec![1, 2, 3, 4, 5, 6, 7, 8, 9, 10, 11, 12];
    let round = decode_nonce(&encode_nonce(&nonce)).expect("decode");
    assert_eq!(round, nonce);

    let bad = decode_salt("not valid base64!!!");
    assert!(matches!(bad, Err(VaultError::FormatError(_))));
}

#[test]
fn test_envelope_round_trip() {
    let mut manager = Manager::new();
    manager.set_db_path("vault.db".to_string());
    manager.setup_new_user("P".to_string()).expect("setup");
    passmgr::manager::CredentialManager::add_credential(
        &mut manager,
        "github".to_string(),
        "gh_secret".to_string(),
    )
    .expect("add");
    let store = passmgr::manager::CredentialManager::save_credentials(&manager).expect("save");

    assert_eq!(store.version, 1);
    assert_eq!(decode_salt(&store.argon2_salt).expect("salt").len(), 16);
    assert_eq!(decode_nonce(&store.encryption_nonce).expect("nonce").len(), 12);

    let mut manager2 = Manager::new();
    manager2.set_db_path("vault.db".to_string());
    let ok = manager2.validate_master_password(&store, "P".to_string()).expect("validate");
    assert!(ok);
    assert_eq!(
        passmgr::manager::CredentialManager::credentials(&manager2).get("github"),
        Some(&"gh_secret".to_string())
    );
}

#[test]
fn test_fresh_salt_and_nonce_each_save() {
    let mut manager = Manager::new();
    manager.set_db_path("vault.db".to_string());
    manager.setup_new_user("P".to_string()).expect("setup");
    let s1 = passmgr::manager::CredentialManager::save_credentials(&manager).expect("save");
    let s2 = passmgr::manager::CredentialManager::save_credentials(&manager).expect("save");
    assert_ne!(s1.argon2_salt, s2.argon2_salt);
    assert_ne!(s1.encryption_nonce, s2.encryption_nonce);
}

#[test]
fn test_is_new_user() {
    let mut manager = Manager::new();
    assert!(manager.is_new_user(true, 100), "No path set means a new user");

    manager.set_db_path("vault.db".to_string());
    assert!(manager.is_new_user(false, 0), "Absent file means a new user");
    assert!(manager.is_new_user(true, 0), "Empty file means a new user");
    assert!(!manager.is_new_user(true, 5), "A nonempty file means an existing vault");
}

#[test]
fn test_setup_requires_path() {
    let mut manager = Manager::new();
    let result = manager.setup_new_user("P".to_string());
    match result {
        Err(VaultError::IoError(msg)) => assert_eq!(msg, "Database path not set"),
        _ => panic!("Expected an IoError about the missing path"),
    }
}

#[test]
fn test_error_messages() {
    assert_eq!(VaultError::IoError("cannot read".to_string()).message(), "cannot read");
    assert_eq!(VaultError::FormatError("bad envelope".to_string()).message(), "bad envelope");
    assert_eq!(
        VaultError::AuthenticationFailure.message(),
        "Decryption failed - invalid password"
    );
    assert_eq!(VaultError::CryptoError("cipher".to_string()).message(), "cipher");
}

#[test]
fn test_clear_master_password() {
    let mut manager = Manager::new();
    manager.set_db_path("vault.db".to_string());
    manager.setup_new_user("P".to_string()).expect("setup");
    passmgr::manager::CredentialManager::clear_master_password(&mut manager);
    // with the password scrubbed, sealing still works but under the empty password
    let store = passmgr::manager::CredentialManager::save_credentials(&manager).expect("save");
    let mut manager2 = Manager::new();
    manager2.set_db_path("vault.db".to_string());
    let ok = manager2.validate_master_password(&store, "".to_string()).expect("validate");
    assert!(ok);
    let bad = manager2.validate_master_password(&store, "P".to_string()).expect("validate");
    assert!(!bad);
}

#[test]
fn test_encrypt_changes_data() {
    let salt: Vec<u8> = vec![3u8; 16];
    let nonce: Vec<u8> = vec![4u8; 12];
    let key = derive_key("pw", &salt).expect("key");
    let plaintext: Vec<u8> = b"hello".to_vec();
    let ciphertext = encrypt(&plaintext, &key, &nonce).expect("encrypt");
    assert_ne!(&ciphertext[..plaintext.len()], &plaintext[..]);
}

#[test]
fn test_encode_not_identity() {
    let data: Vec<u8> = b"ab".to_vec();
    let encoded = encode_encrypted_data(&data);
    assert_eq!(encoded, "YWI=");
}

#[test]
fn test_validate_errs_exactly_without_path() {
    let mut sealed = Manager::new();
    sealed.set_db_path("vault.db".to_string());
    let store = sealed.setup_new_user("P".to_string()).expect("setup");

    let mut no_path = Manager::new();
    assert!(no_path.validate_master_password(&store, "P".to_string()).is_err());

    let mut with_path = Manager::new();
    with_path.set_db_path("vault.db".to_string());
    assert!(with_path.validate_master_password(&store, "P".to_string()).is_ok());
}
