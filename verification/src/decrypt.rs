//! Strict decryption of inline vault values: the password file is read without checking
//! that it is a file, and the decrypted bytes must be UTF-8.

use crate::key_files::{secret_of, Failure, KeyFiles};
use crate::vault_crypto::vault_decryption;
use crate::vault_encryption::{open_vault, outcome, with_standard_header, EncryptionError};
use crate::vault_secrets::VaultSecrets;

use vstd::prelude::*;
use vstd::utf8::{decode_utf8, valid_utf8};

verus! {

broadcast use vstd::string::group_string_axioms;

/// What decrypting the vault text `s` with `secret` gives, when the decrypted bytes are
/// UTF-8.
pub open spec fn strict_decryption(s: Seq<char>, secret: Seq<char>) -> Result<Seq<char>, Failure> {
    match with_standard_header(s) {
        None => Err(Failure::NoFirstLine),
        Some(ready) => match vault_decryption(ready, secret) {
            None => Err(Failure::Cipher),
            Some(b) => Ok(decode_utf8(b)),
        },
    }
}

/// Decrypting `s` with the secret `key` gives bytes that are not UTF-8.
pub open spec fn gives_non_utf8(key: Result<Seq<char>, Failure>, s: Seq<char>) -> bool {
    match key {
        Err(_) => false,
        Ok(secret) => match with_standard_header(s) {
            None => false,
            Some(ready) => match vault_decryption(ready, secret) {
                None => false,
                Some(b) => !valid_utf8(b),
            },
        },
    }
}

/// Decryption of inline vault values.
pub trait Decrypt {
    /// Decrypting `s` (with the identifier `id`, or without) gives text.
    spec fn decrypts_to_text(&self, s: Seq<char>, id: Option<Seq<char>>) -> bool;

    /// Decrypts `s` with the password file of the vault identifier `id`.
    fn decrypt_with_id(&self, s: &str, id: &str) -> Result<String, EncryptionError>
        requires
            self.decrypts_to_text(s@, Some(id@)),
    ;

    /// Decrypts `s` with the password file without identifier.
    fn decrypt_no_id(&self, s: &str) -> Result<String, EncryptionError>
        requires
            self.decrypts_to_text(s@, None),
    ;
}

/// Decryption with the password files of a `VaultSecrets`.
pub struct VaultDecrypt {
    pub vault: VaultSecrets,
    pub keys: KeyFiles,
}

impl VaultDecrypt {
    /// Decryption with the password files of `vault`, whose contents `keys` holds.
    pub fn new(vault: VaultSecrets, keys: KeyFiles) -> (r: VaultDecrypt)
        ensures
            r.vault == vault,
            r.keys == keys,
    {
        VaultDecrypt { vault, keys }
    }

    /// The secret for the vault identifier `id`, or for no identifier.
    pub open spec fn secret(&self, id: Option<Seq<char>>) -> Result<Seq<char>, Failure> {
        match id {
            Some(i) => if self.vault.ids@.contains_key(i) {
                secret_of(self.keys.files@, self.vault.ids@[i], false)
            } else {
                Err(Failure::NoVaultFileWithId(i))
            },
            None => match self.vault.no_id_path() {
                Some(p) => secret_of(self.keys.files@, p, false),
                None => Err(Failure::NoIdLessVaultFile),
            },
        }
    }

    /// What decrypting `s` with the identifier `id`, or without, gives.
    pub open spec fn decryption(&self, s: Seq<char>, id: Option<Seq<char>>) -> Result<Seq<char>, Failure> {
        match self.secret(id) {
            Err(f) => Err(f),
            Ok(secret) => strict_decryption(s, secret),
        }
    }

    /// The secret for the vault identifier `id`, or for no identifier.
    fn key(&self, id: Option<&str>) -> (r: Result<String, EncryptionError>)
        ensures
            outcome(r) == self.secret(
                match id {
                    Some(i) => Some(i@),
                    None => None,
                },
            ),
    {
        let path = match id {
            Some(i) => match self.vault.get_id(i) {
                None => return Err(EncryptionError::NoVaultFileWithId(i.to_owned())),
                Some(p) => p,
            },
            None => match self.vault.get_no_id() {
                None => return Err(EncryptionError::NoIdLessVaultFile),
                Some(p) => p,
            },
        };
        match self.keys.secret(path, false) {
            Ok(s) => Ok(s),
            Err((true, p)) => Err(EncryptionError::VaultFileMissing(p)),
            Err((false, m)) => Err(EncryptionError::Unreadable(m)),
        }
    }

    /// Decrypts `s` with `secret`, whose decrypted bytes must be UTF-8.
    fn open(s: &str, secret: &str) -> (r: Result<String, EncryptionError>)
        requires
            !gives_non_utf8(Ok(secret@), s@),
        ensures
            outcome(r) == strict_decryption(s@, secret@),
    {
        open_vault(s, secret)
    }

    /// Whether decrypting `s` with the identifier `id`, or without, gives text.
    pub fn gives_text(&self, s: &str, id: Option<&str>) -> (r: bool)
        ensures
            r == self.decrypts_to_text(
                s@,
                match id {
                    Some(i) => Some(i@),
                    None => None,
                },
            ),
    {
        match self.key(id) {
            Err(_) => true,
            Ok(secret) => match open_vault(s, secret.as_str()) {
                Err(EncryptionError::NotUtf8(_)) => false,
                _ => true,
            },
        }
    }
}

impl Decrypt for VaultDecrypt {
    open spec fn decrypts_to_text(&self, s: Seq<char>, id: Option<Seq<char>>) -> bool {
        !gives_non_utf8(self.secret(id), s)
    }

    fn decrypt_with_id(&self, s: &str, id: &str) -> (r: Result<String, EncryptionError>)
        ensures
            outcome(r) == self.decryption(s@, Some(id@)),
    {
        match self.key(Some(id)) {
            Err(e) => Err(e),
            Ok(secret) => Self::open(s, secret.as_str()),
        }
    }

    fn decrypt_no_id(&self, s: &str) -> (r: Result<String, EncryptionError>)
        ensures
            outcome(r) == self.decryption(s@, None),
    {
        match self.key(None) {
            Err(e) => Err(e),
            Ok(secret) => Self::open(s, secret.as_str()),
        }
    }
}

} // verus!
