//! The vault manager: holds the credential map and the master password, seals
//! the map into an envelope for every save, and opens an envelope back into a
//! map. Reading and writing the vault file is the surrounding program's part;
//! it hands envelopes in and takes envelopes out.

use vstd::prelude::*;

use crate::credentials::{distinct_keys, pairs_to_map, Credentials};
use crate::crypto::{
    aead_open, decrypt, derive_key, encrypt, generate_nonce, generate_salt, kdf, NONCE_LEN,
    SALT_LEN,
};
use crate::errors::VaultError;
use crate::storage::{
    b64_parse, decode_encrypted_data, decode_nonce, decode_salt, encode_encrypted_data,
    encode_nonce, encode_salt, EncryptedStore,
};

verus! {

/// The credential pairs that the JSON plaintext carries, if it is a valid
/// object of strings: what `serde_json` parses it as, sorted by name.
pub uninterp spec fn creds_json_parse(bytes: Seq<u8>) -> Option<Seq<(Seq<char>, Seq<char>)>>;

/// Relies on `serde_json::to_vec` over a `BTreeMap<String, String>`: a JSON
/// object with one member per pair, which `serde_json` parses back to the
/// same map.
#[verifier::external_body]
fn creds_to_json(entries: &Vec<(String, String)>) -> (r: Result<Vec<u8>, VaultError>)
    requires
        distinct_keys(entries.deep_view()),
    ensures
        match r {
            Ok(bytes) => match creds_json_parse(bytes@) {
                Some(pairs) => distinct_keys(pairs) && pairs_to_map(pairs) == pairs_to_map(
                    entries.deep_view(),
                ),
                None => false,
            },
            Err(e) => e is FormatError,
        },
{
    let mut map = std::collections::BTreeMap::new();
    for (name, secret) in entries.iter() {
        map.insert(name.clone(), secret.clone());
    }
    match serde_json::to_vec(&map) {
        Ok(v) => Ok(v),
        Err(e) => Err(VaultError::FormatError(format!("{}", e))),
    }
}

/// Relies on `serde_json::from_slice` into a `BTreeMap<String, String>`:
/// deterministic in the bytes alone; on success the members come out sorted
/// by name, names distinct.
#[verifier::external_body]
fn creds_from_json(bytes: &Vec<u8>) -> (r: Option<Vec<(String, String)>>)
    ensures
        match r {
            Some(v) => creds_json_parse(bytes@) == Some(v.deep_view()) && distinct_keys(
                v.deep_view(),
            ),
            None => creds_json_parse(bytes@) is None,
        },
{
    match serde_json::from_slice::<std::collections::BTreeMap<String, String>>(bytes.as_slice()) {
        Ok(m) => Some(m.into_iter().collect()),
        Err(_) => None,
    }
}

/// The envelope `store` opens under `password`: its fields decode, the tag
/// of its ciphertext verifies under the key derived from `password` and its
/// salt, and the plaintext parses as a credential map. Every step is
/// deterministic in the envelope and the password.
pub open spec fn store_opens(store: EncryptedStore, password: Seq<char>) -> bool {
    let salt = b64_parse(store.argon2_salt@);
    let nonce = b64_parse(store.encryption_nonce@);
    let ct = b64_parse(store.encrypted_data@);
    &&& salt is Some && salt->0.len() == SALT_LEN
    &&& nonce is Some && nonce->0.len() == NONCE_LEN
    &&& ct is Some
    &&& {
        let pt = aead_open(kdf(password, salt->0), nonce->0, ct->0);
        &&& pt is Some
        &&& creds_json_parse(pt->0) is Some
    }
}

/// The envelope `store`, opened with `password`, yields exactly the
/// credential map `m`.
pub open spec fn store_opens_to(
    store: EncryptedStore,
    password: Seq<char>,
    m: Map<Seq<char>, Seq<char>>,
) -> bool {
    let salt = b64_parse(store.argon2_salt@);
    let nonce = b64_parse(store.encryption_nonce@);
    let ct = b64_parse(store.encrypted_data@);
    &&& store_opens(store, password)
    &&& pairs_to_map(
        creds_json_parse(aead_open(kdf(password, salt->0), nonce->0, ct->0)->0)->0,
    ) == m
}

/// One envelope holds one map: opening is deterministic given the password.
pub proof fn lemma_store_opens_uniquely(
    store: EncryptedStore,
    password: Seq<char>,
    m1: Map<Seq<char>, Seq<char>>,
    m2: Map<Seq<char>, Seq<char>>,
)
    requires
        store_opens_to(store, password, m1),
        store_opens_to(store, password, m2),
    ensures
        m1 == m2,
{
}

/// Holds a session's credentials, vault location, and master password.
pub struct Manager {
    credentials: Credentials,
    pwd_db_path: Option<String>,
    master_password: Option<String>,
}

impl Manager {
    /// The credential map held in memory.
    pub closed spec fn view(&self) -> Map<Seq<char>, Seq<char>> {
        self.credentials@
    }

    pub closed spec fn wf(&self) -> bool {
        self.credentials.wf()
    }

    /// The vault file path, once set.
    pub closed spec fn db_path(&self) -> Option<Seq<char>> {
        match self.pwd_db_path {
            Some(p) => Some(p@),
            None => None,
        }
    }

    /// The master password held for re-encryption, once known.
    pub closed spec fn password(&self) -> Option<Seq<char>> {
        match self.master_password {
            Some(p) => Some(p@),
            None => None,
        }
    }

    /// A manager with no credentials, no path, and no password.
    pub fn new() -> (r: Manager)
        ensures
            r.wf(),
            r@ == Map::<Seq<char>, Seq<char>>::empty(),
            r.db_path() is None,
            r.password() is None,
    {
        Manager { credentials: Credentials::new(), pwd_db_path: None, master_password: None }
    }

    /// Points the manager at a vault file.
    pub fn set_db_path(&mut self, path: String)
        ensures
            final(self).wf() == old(self).wf(),
            final(self)@ == old(self)@,
            final(self).db_path() == Some(path@),
            final(self).password() == old(self).password(),
    {
        self.pwd_db_path = Some(path);
    }

    /// First-run detection: true exactly when no path is set, the vault file
    /// is absent, or it is empty. The caller reports whether the file exists
    /// and how long it is.
    pub fn is_new_user(&self, file_exists: bool, file_len: u64) -> (r: bool)
        ensures
            r == (self.db_path() is None || !file_exists || file_len == 0),
    {
        match &self.pwd_db_path {
            None => true,
            Some(_) => !file_exists || file_len == 0,
        }
    }

    /// Seals the held credentials under the held master password: fresh salt,
    /// fresh key, fresh nonce, full re-encryption.
    fn do_save_credentials(&self) -> (r: Result<EncryptedStore, VaultError>)
        requires
            self.wf(),
        ensures
            match r {
                Ok(store) => {
                    &&& self.db_path() is Some
                    &&& self.password() is Some
                    &&& store.version == 1
                    &&& store_opens_to(store, self.password()->0, self@)
                },
                Err(e) => {
                    ||| (e is IoError && (self.db_path() is None || self.password() is None))
                    ||| e is CryptoError
                    ||| e is FormatError
                },
            },
    {
        if self.pwd_db_path.is_none() {
            let mut msg = String::new();
            msg.append("Database path not set");
            return Err(VaultError::IoError(msg));
        }
        let password = match &self.master_password {
            Some(p) => p,
            None => {
                let mut msg = String::new();
                msg.append("Master password not set");
                return Err(VaultError::IoError(msg));
            },
        };
        let salt = match generate_salt() {
            Ok(s) => s,
            Err(e) => {
                return Err(e);
            },
        };
        let key = match derive_key(password.as_str(), &salt) {
            Ok(k) => k,
            Err(e) => {
                return Err(e);
            },
        };
        let credentials_json = match creds_to_json(self.credentials.to_map()) {
            Ok(j) => j,
            Err(e) => {
                return Err(e);
            },
        };
        let nonce_bytes = match generate_nonce() {
            Ok(n) => n,
            Err(e) => {
                return Err(e);
            },
        };
        let encrypted_data = match encrypt(&credentials_json, &key, &nonce_bytes) {
            Ok(c) => c,
            Err(e) => {
                return Err(e);
            },
        };
        let store = EncryptedStore {
            version: 1,
            argon2_salt: encode_salt(&salt),
            encryption_nonce: encode_nonce(&nonce_bytes),
            encrypted_data: encode_encrypted_data(&encrypted_data),
        };
        proof {
            assert(store_opens_to(store, self.password()->0, self@)) by {
                assert(aead_open(kdf(self.password()->0, salt@), nonce_bytes@, encrypted_data@)
                    == Some(credentials_json@));
            }
        }
        Ok(store)
    }

    /// Creates a fresh vault: remembers the master password, empties the
    /// credentials, and seals them so the caller can write the first file.
    pub fn setup_new_user(&mut self, master_password: String) -> (r: Result<
        EncryptedStore,
        VaultError,
    >)
        requires
            old(self).wf(),
        ensures
            final(self).wf(),
            old(self).db_path() is None ==> (r is Err && *final(self) == *old(self)),
            old(self).db_path() is Some ==> {
                &&& final(self)@ == Map::<Seq<char>, Seq<char>>::empty()
                &&& final(self).password() == Some(master_password@)
                &&& final(self).db_path() == old(self).db_path()
                &&& match r {
                    Ok(store) => store.version == 1 && store_opens_to(
                        store,
                        master_password@,
                        Map::<Seq<char>, Seq<char>>::empty(),
                    ),
                    Err(e) => e is CryptoError || e is FormatError,
                }
            },
    {
        if self.pwd_db_path.is_none() {
            let mut msg = String::new();
            msg.append("Database path not set");
            return Err(VaultError::IoError(msg));
        }
        self.master_password = Some(master_password);
        self.credentials = Credentials::new();
        self.do_save_credentials()
    }

    /// Opens an envelope with a password: decodes the fields, derives the
    /// key, decrypts, and parses the plaintext into credential pairs.
    fn unlock_store(store: &EncryptedStore, password: &str) -> (r: Result<
        Vec<(String, String)>,
        VaultError,
    >)
        ensures
            match r {
                Ok(pairs) => distinct_keys(pairs.deep_view()) && store_opens_to(
                    *store,
                    password@,
                    pairs_to_map(pairs.deep_view()),
                ),
                // a CryptoError reports a key-derivation failure; every other
                // error proves the envelope does not open under this password
                Err(e) => !(e is IoError) && (e is CryptoError || !store_opens(
                    *store,
                    password@,
                )),
            },
    {
        let salt = match decode_salt(store.argon2_salt.as_str()) {
            Ok(s) => s,
            Err(e) => {
                return Err(e);
            },
        };
        if salt.len() != SALT_LEN {
            let mut msg = String::new();
            msg.append("Invalid salt length");
            return Err(VaultError::FormatError(msg));
        }
        let key = match derive_key(password, &salt) {
            Ok(k) => k,
            Err(e) => {
                return Err(e);
            },
        };
        let nonce_bytes = match decode_nonce(store.encryption_nonce.as_str()) {
            Ok(n) => n,
            Err(e) => {
                return Err(e);
            },
        };
        if nonce_bytes.len() != NONCE_LEN {
            let mut msg = String::new();
            msg.append("Invalid nonce length");
            return Err(VaultError::FormatError(msg));
        }
        let encrypted_data = match decode_encrypted_data(store.encrypted_data.as_str()) {
            Ok(d) => d,
            Err(e) => {
                return Err(e);
            },
        };
        let decrypted_data = match decrypt(&encrypted_data, &key, &nonce_bytes) {
            Ok(p) => p,
            Err(e) => {
                return Err(e);
            },
        };
        match creds_from_json(&decrypted_data) {
            Some(pairs) => {
                proof {
                    assert(aead_open(kdf(password@, salt@), nonce_bytes@, encrypted_data@)
                        == Some(decrypted_data@));
                }
                Ok(pairs)
            },
            None => {
                let mut msg = String::new();
                msg.append("invalid credential data");
                Err(VaultError::FormatError(msg))
            },
        }
    }

    /// Tries a password against an envelope. On success the manager holds the
    /// decrypted credentials and the password; any unlock failure is reported
    /// as `false` with the manager unchanged. The call errs exactly when no
    /// vault path is set, and an envelope that does not open under the given
    /// password is always reported `false`; `false` despite an opening
    /// envelope can come only from a key-derivation failure.
    pub fn validate_master_password(&mut self, store: &EncryptedStore, password: String) -> (r:
        Result<bool, VaultError>)
        requires
            old(self).wf(),
        ensures
            final(self).wf(),
            r is Err <==> old(self).db_path() is None,
            old(self).db_path() is Some && !store_opens(*store, password@) ==> r == Ok::<
                bool,
                VaultError,
            >(false),
            match r {
                Ok(true) => {
                    &&& store_opens(*store, password@)
                    &&& store_opens_to(*store, password@, final(self)@)
                    &&& final(self).password() == Some(password@)
                    &&& final(self).db_path() == old(self).db_path()
                },
                Ok(false) => *final(self) == *old(self),
                Err(e) => e is IoError && *final(self) == *old(self),
            },
    {
        if self.pwd_db_path.is_none() {
            let mut msg = String::new();
            msg.append("Database path not set");
            return Err(VaultError::IoError(msg));
        }
        match Self::unlock_store(store, password.as_str()) {
            Ok(pairs) => {
                self.credentials = Credentials::from_map(pairs);
                self.master_password = Some(password);
                Ok(true)
            },
            Err(_) => Ok(false),
        }
    }

}

/// Relies on `String::clear`: empties the string while keeping its buffer;
/// the bytes themselves are not touched by this call alone.
#[verifier::external_body]
fn clear_string(s: &mut String)
    ensures
        final(s)@ == Seq::<char>::empty(),
{
    s.clear()
}

/// What a read-eval loop needs from the vault: the credential map, mutation
/// through it, sealing for persistence, and scrubbing the master password on
/// the way out.
pub trait CredentialManager: Sized {
    spec fn creds_map(&self) -> Map<Seq<char>, Seq<char>>;

    spec fn creds_wf(&self) -> bool;

    spec fn held_password(&self) -> Option<Seq<char>>;

    /// Read access to the credentials.
    fn credentials(&self) -> (r: &Credentials)
        ensures
            r@ == self.creds_map(),
            r.wf() == self.creds_wf(),
    ;

    /// Stores a new credential, as `Credentials::add` does.
    fn add_credential(&mut self, name: String, secret: String) -> (r: Result<(), String>)
        requires
            old(self).creds_wf(),
        ensures
            final(self).creds_wf(),
            final(self).held_password() == old(self).held_password(),
            match r {
                Ok(()) => !old(self).creds_map().dom().contains(name@) && final(self).creds_map()
                    == old(self).creds_map().insert(name@, secret@),
                Err(_) => old(self).creds_map().dom().contains(name@) && final(self).creds_map()
                    == old(self).creds_map(),
            },
    ;

    /// Removes a credential, as `Credentials::remove` does.
    fn remove_credential(&mut self, name: &str) -> (r: bool)
        requires
            old(self).creds_wf(),
        ensures
            final(self).creds_wf(),
            final(self).held_password() == old(self).held_password(),
            r == old(self).creds_map().dom().contains(name@),
            final(self).creds_map() == old(self).creds_map().remove(name@),
    ;

    /// Seals the credentials into an envelope for the caller to persist.
    fn save_credentials(&self) -> (r: Result<EncryptedStore, VaultError>)
        requires
            self.creds_wf(),
        ensures
            match r {
                Ok(store) => self.held_password() is Some && store_opens_to(
                    store,
                    self.held_password()->0,
                    self.creds_map(),
                ),
                Err(_) => true,
            },
    ;

    /// Overwrites the held master password before the session ends.
    fn clear_master_password(&mut self)
        ensures
            final(self).creds_map() == old(self).creds_map(),
            final(self).creds_wf() == old(self).creds_wf(),
            match final(self).held_password() {
                Some(p) => p.len() == 0 && old(self).held_password() is Some,
                None => old(self).held_password() is None,
            },
    ;
}

impl CredentialManager for Manager {
    open spec fn creds_map(&self) -> Map<Seq<char>, Seq<char>> {
        self@
    }

    open spec fn creds_wf(&self) -> bool {
        self.wf()
    }

    open spec fn held_password(&self) -> Option<Seq<char>> {
        self.password()
    }

    fn credentials(&self) -> (r: &Credentials) {
        &self.credentials
    }

    fn add_credential(&mut self, name: String, secret: String) -> (r: Result<(), String>) {
        self.credentials.add(name, secret)
    }

    fn remove_credential(&mut self, name: &str) -> (r: bool) {
        self.credentials.remove(name)
    }

    fn save_credentials(&self) -> (r: Result<EncryptedStore, VaultError>) {
        self.do_save_credentials()
    }

    fn clear_master_password(&mut self) {
        match &mut self.master_password {
            Some(pwd) => {
                // overwrite the retained buffer in place before leaving the
                // string empty: pushes after a clear reuse the allocation
                let n = pwd.as_str().len();
                clear_string(pwd);
                let mut i: usize = 0;
                while i < n
                    invariant
                        i <= n,
                    decreases n - i,
                {
                    crate::text::push_char(pwd, '\0');
                    i = i + 1;
                }
                clear_string(pwd);
            },
            None => {},
        }
    }
}

} // verus!
