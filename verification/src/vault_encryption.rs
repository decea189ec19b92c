//! Encrypting and decrypting inline vault values with the password file of their vault
//! identifier.

use crate::key_files::{secret_of, Failure, KeyFiles};
use crate::text::{chars_of, find_from, find_from_exec, lemma_find_from, occurs_at_exec, split_once};
use crate::vault_crypto::{
    decrypt_vault_text, encrypt_vault_text, seals, standard_header, text_from_utf8, vault_error_message,
    vault_decryption,
};
use crate::vault_secrets::VaultSecrets;
use vstd::prelude::*;
use vstd::utf8::{decode_utf8, valid_utf8};

verus! {

broadcast use vstd::string::group_string_axioms;

/// The first line of `s` (as `str::lines` gives it): `None` for the empty text.
pub open spec fn first_line(s: Seq<char>) -> Option<Seq<char>> {
    if s.len() == 0 {
        None
    } else {
        match find_from(s, '\n', 0) {
            None => Some(s),
            Some(i) => if i > 0 && s[i - 1] == '\r' {
                Some(s.take(i - 1))
            } else {
                Some(s.take(i))
            },
        }
    }
}

/// `s` with its first line replaced by the standard header, unless it is that header
/// already; `None` for the empty text.
pub open spec fn with_standard_header(s: Seq<char>) -> Option<Seq<char>> {
    match first_line(s) {
        None => None,
        Some(first) => if first == standard_header() {
            Some(s)
        } else {
            Some(standard_header() + seq!['\n'] + s.skip(first.len() as int))
        },
    }
}

/// What decrypting the vault text `s` with the secret `secret` gives.
pub open spec fn decryption(s: Seq<char>, secret: Seq<char>) -> Result<Seq<char>, Failure> {
    match with_standard_header(s) {
        None => Err(Failure::NoFirstLine),
        Some(ready) => match vault_decryption(ready, secret) {
            None => Err(Failure::Cipher),
            Some(b) => if valid_utf8(b) {
                Ok(decode_utf8(b))
            } else {
                Err(Failure::NotUtf8)
            },
        },
    }
}

/// `t` is a vault that holds `plain` under `password`, with `id` added to its header line.
pub open spec fn seals_with_id(t: Seq<char>, plain: Seq<char>, password: Seq<char>, id: Seq<char>) -> bool {
    let h = standard_header().len() as int;
    let body = t.skip(h + 2 + id.len());
    &&& t == standard_header() + seq![';'] + id + seq!['\n'] + body
    &&& seals(standard_header() + seq!['\n'] + body, plain, password)
}

/// Why encrypting or decrypting a value failed.
#[derive(Debug)]
pub enum EncryptionError {
    /// No password file is given for the vault identifier.
    NoVaultFileWithId(String),
    /// No password file without identifier is given.
    NoIdLessVaultFile,
    /// The password file is not a file.
    VaultFileMissing(String),
    /// The password file could not be read; the message says why.
    Unreadable(String),
    /// The text to decrypt is empty.
    NoFirstLine,
    /// The cipher failed.
    Cipher(ansible_vault::VaultError),
    /// The decrypted bytes are not UTF-8; the message says why.
    NotUtf8(String),
}

impl EncryptionError {
    /// The failure this error reports.
    pub open spec fn failure(&self) -> Failure {
        match self {
            EncryptionError::NoVaultFileWithId(id) => Failure::NoVaultFileWithId(id@),
            EncryptionError::NoIdLessVaultFile => Failure::NoIdLessVaultFile,
            EncryptionError::VaultFileMissing(p) => Failure::VaultFileMissing(p@),
            EncryptionError::Unreadable(m) => Failure::Unreadable(m@),
            EncryptionError::NoFirstLine => Failure::NoFirstLine,
            EncryptionError::Cipher(_) => Failure::Cipher,
            EncryptionError::NotUtf8(_) => Failure::NotUtf8,
        }
    }
}

impl EncryptionError {
    /// The message of this error, as the command reports it.
    pub fn message(&self) -> (r: String)
        ensures
            match self {
                EncryptionError::NoVaultFileWithId(id) => r@ == "No vault file with id '"@ + id@ + "'"@,
                EncryptionError::NoIdLessVaultFile => r@ == "No id-less vault file"@,
                EncryptionError::VaultFileMissing(p) => r@ == "Vault file '"@ + p@ + "' does not exist."@,
                EncryptionError::Unreadable(m) => r@ == m@,
                EncryptionError::NoFirstLine => r@ == "Can't iterate on fist line"@,
                EncryptionError::Cipher(_) => true,
                EncryptionError::NotUtf8(m) => r@ == m@,
            },
    {
        match self {
            EncryptionError::NoVaultFileWithId(id) => {
                let mut m = String::from_str("No vault file with id '");
                m.append(id.as_str());
                m.append("'");
                m
            },
            EncryptionError::NoIdLessVaultFile => String::from_str("No id-less vault file"),
            EncryptionError::VaultFileMissing(p) => {
                let mut m = String::from_str("Vault file '");
                m.append(p.as_str());
                m.append("' does not exist.");
                m
            },
            EncryptionError::Unreadable(m) => m.clone(),
            EncryptionError::NoFirstLine => String::from_str("Can't iterate on fist line"),
            EncryptionError::Cipher(e) => vault_error_message(e),
            EncryptionError::NotUtf8(m) => m.clone(),
        }
    }
}

/// The model of an outcome of encryption or decryption.
pub open spec fn outcome(r: Result<String, EncryptionError>) -> Result<Seq<char>, Failure> {
    match r {
        Ok(s) => Ok(s@),
        Err(e) => Err(e.failure()),
    }
}

/// Decrypts the vault text `s` with `secret` (see `decryption`).
pub fn open_vault(s: &str, secret: &str) -> (r: Result<String, EncryptionError>)
    ensures
        outcome(r) == decryption(s@, secret@),
{
    let v = chars_of(s);
    let n = v.len();
    if n == 0 {
        return Err(EncryptionError::NoFirstLine);
    }
    proof {
        lemma_find_from(v@, '\n', 0);
    }
    let end = match find_from_exec(&v, '\n', 0) {
        None => n,
        Some(i) => if i > 0 && v[i - 1] == '\r' {
            i - 1
        } else {
            i
        },
    };
    assert(first_line(s@) == Some(s@.take(end as int)));
    let header = chars_of("$ANSIBLE_VAULT;1.1;AES256");
    let is_standard = end == header.len() && occurs_at_exec(&v, 0, &header);
    proof {
        if end == header@.len() {
            assert(s@.subrange(0, end as int) =~= s@.take(end as int));
        }
    }
    assert(is_standard == (s@.take(end as int) == standard_header()));
    let ready = if is_standard {
        s.to_owned()
    } else {
        let mut t = String::from_str("$ANSIBLE_VAULT;1.1;AES256");
        t.append("\n");
        t.append(s.substring_char(end, n));
        proof {
            reveal_strlit("\n");
            assert(s@.subrange(end as int, n as int) =~= s@.skip(end as int));
        }
        t
    };
    assert(with_standard_header(s@) == Some(ready@));
    match decrypt_vault_text(ready.as_str(), secret) {
        Err(e) => Err(EncryptionError::Cipher(e)),
        Ok(bytes) => match text_from_utf8(bytes) {
            Ok(text) => Ok(text),
            Err(m) => Err(EncryptionError::NotUtf8(m)),
        },
    }
}

/// `vaulted` with `;` and `id` added to its first line (its text up to the first line
/// feed); `None` when it has no line feed.
pub open spec fn header_with_id(vaulted: Seq<char>, id: Seq<char>) -> Option<Seq<char>> {
    match split_once(vaulted, '\n') {
        Some((head, body)) => Some(head + seq![';'] + id + seq!['\n'] + body),
        None => None,
    }
}

/// Adds `;` and `id` to the first line of the vault text `vaulted` (see `header_with_id`).
pub fn add_vault_id(vaulted: &str, id: &str) -> (r: String)
    requires
        header_with_id(vaulted@, id@) is Some,
    ensures
        header_with_id(vaulted@, id@) == Some(r@),
{
    let v = chars_of(vaulted);
    proof {
        lemma_find_from(v@, '\n', 0);
    }
    let nl = match find_from_exec(&v, '\n', 0) {
        Some(i) => i,
        None => 0,
    };
    let mut t = String::from_str(vaulted.substring_char(0, nl));
    t.append(";");
    t.append(id);
    t.append("\n");
    t.append(vaulted.substring_char(nl + 1, v.len()));
    proof {
        reveal_strlit(";");
        reveal_strlit("\n");
        assert(vaulted@.subrange(0, nl as int) =~= vaulted@.take(nl as int));
        assert(vaulted@.subrange(nl + 1, v@.len() as int) =~= vaulted@.skip(nl + 1));
        assert(t@ =~= vaulted@.take(nl as int) + seq![';'] + id@ + seq!['\n'] + vaulted@.skip(nl + 1));
    }
    t
}

/// Lemma: a vault sealed with the standard header, with an identifier added to its first
/// line, is sealed with that identifier.
proof fn lemma_header_with_id_seals(t: Seq<char>, plain: Seq<char>, secret: Seq<char>, id: Seq<char>)
    requires
        seals(t, plain, secret),
    ensures
        header_with_id(t, id) matches Some(x) && seals_with_id(x, plain, secret, id),
{
    reveal_strlit("$ANSIBLE_VAULT;1.1;AES256");
    let h = standard_header().len() as int;
    assert(h == 25);
    assert forall|k: int| 0 <= k < h implies t[k] != '\n' by {
        assert(t[k] == t.take(h)[k]);
    }
    crate::text::lemma_find_from_is(t, '\n', 0, h);
    let body = t.skip(h + 1);
    let x = standard_header() + seq![';'] + id + seq!['\n'] + body;
    assert(t.take(h) == standard_header());
    assert(header_with_id(t, id) == Some(x));
    assert(x.skip(h + 2 + id.len()) =~= body);
    assert(standard_header() + seq!['\n'] + body =~= t);
}

/// Encrypts `plain` with `secret`, and adds `id`, if any, to the header line; this cannot
/// fail.
pub fn seal_vault(plain: &str, secret: &str, id: Option<&str>) -> (r: Result<String, EncryptionError>)
    ensures
        r matches Ok(t) && match id {
            None => seals(t@, plain@, secret@),
            Some(id) => seals_with_id(t@, plain@, secret@, id@),
        },
{
    match encrypt_vault_text(plain, secret) {
        Err(e) => Err(EncryptionError::Cipher(e)),
        Ok(vaulted) => match id {
            None => Ok(vaulted),
            Some(id) => {
                proof {
                    lemma_header_with_id_seals(vaulted@, plain@, secret@, id@);
                }
                Ok(add_vault_id(vaulted.as_str(), id))
            },
        },
    }
}

/// Encryption and decryption of inline vault values.
pub trait Encryption {
    /// Decrypts `s` with the password file of the vault identifier `id`.
    fn decrypt_with_id(&self, s: &str, id: &str) -> Result<String, EncryptionError>;

    /// Decrypts `s` with the password file without identifier.
    fn decrypt_no_id(&self, s: &str) -> Result<String, EncryptionError>;

    /// Encrypts `s` with the password file of the vault identifier `id`, naming `id` in the
    /// header line.
    fn encrypt_with_id(&self, s: &str, id: &str) -> Result<String, EncryptionError>;

    /// Encrypts `s` with the password file without identifier.
    fn encrypt_no_id(&self, s: &str) -> Result<String, EncryptionError>;
}

/// Encryption with the password files that `ansible.cfg` (or the command line) names.
pub struct VaultEncryption {
    pub vault: VaultSecrets,
    pub keys: KeyFiles,
}

impl VaultEncryption {
    /// Encryption with the password files of `vault`, whose contents `keys` holds.
    pub fn new(vault: VaultSecrets, keys: KeyFiles) -> (r: VaultEncryption)
        ensures
            r.vault == vault,
            r.keys == keys,
    {
        VaultEncryption { vault, keys }
    }

    /// The secret of the password file without identifier.
    pub open spec fn no_id_secret(&self) -> Result<Seq<char>, Failure> {
        match self.vault.no_id_path() {
            None => Err(Failure::NoIdLessVaultFile),
            Some(p) => secret_of(self.keys.files@, p, true),
        }
    }

    /// The secret of the password file of the vault identifier `id`.
    pub open spec fn id_secret(&self, id: Seq<char>) -> Result<Seq<char>, Failure> {
        if self.vault.ids@.contains_key(id) {
            secret_of(self.keys.files@, self.vault.ids@[id], true)
        } else {
            Err(Failure::NoVaultFileWithId(id))
        }
    }

    /// What decrypting `s` with the secret `key` (or its failure) gives.
    pub open spec fn decrypt_with(key: Result<Seq<char>, Failure>, s: Seq<char>) -> Result<Seq<char>, Failure> {
        match key {
            Err(e) => Err(e),
            Ok(secret) => decryption(s, secret),
        }
    }

    /// The secret of the password file `path`.
    fn secret_at(&self, path: &str) -> (r: Result<String, EncryptionError>)
        ensures
            outcome(r) == secret_of(self.keys.files@, path@, true),
    {
        match self.keys.secret(path, true) {
            Ok(s) => Ok(s),
            Err((true, p)) => Err(EncryptionError::VaultFileMissing(p)),
            Err((false, m)) => Err(EncryptionError::Unreadable(m)),
        }
    }

    /// The secret of the password file of the vault identifier `id`.
    fn id_key(&self, id: &str) -> (r: Result<String, EncryptionError>)
        ensures
            outcome(r) == self.id_secret(id@),
    {
        match self.vault.get_id(id) {
            None => Err(EncryptionError::NoVaultFileWithId(id.to_owned())),
            Some(path) => self.secret_at(path),
        }
    }

    /// The secret of the password file without identifier.
    fn no_id_key(&self) -> (r: Result<String, EncryptionError>)
        ensures
            outcome(r) == self.no_id_secret(),
    {
        match self.vault.get_no_id() {
            None => Err(EncryptionError::NoIdLessVaultFile),
            Some(path) => self.secret_at(path),
        }
    }
}

impl Encryption for VaultEncryption {
    fn decrypt_with_id(&self, s: &str, id: &str) -> (r: Result<String, EncryptionError>)
        ensures
            outcome(r) == Self::decrypt_with(self.id_secret(id@), s@),
    {
        match self.id_key(id) {
            Err(e) => Err(e),
            Ok(secret) => open_vault(s, secret.as_str()),
        }
    }

    fn decrypt_no_id(&self, s: &str) -> (r: Result<String, EncryptionError>)
        ensures
            outcome(r) == Self::decrypt_with(self.no_id_secret(), s@),
    {
        match self.no_id_key() {
            Err(e) => Err(e),
            Ok(secret) => open_vault(s, secret.as_str()),
        }
    }

    fn encrypt_with_id(&self, s: &str, id: &str) -> (r: Result<String, EncryptionError>)
        ensures
            match self.id_secret(id@) {
                Err(f) => r matches Err(e) && e.failure() == f,
                Ok(secret) => r matches Ok(t) && seals_with_id(t@, s@, secret, id@),
            },
    {
        match self.id_key(id) {
            Err(e) => Err(e),
            Ok(secret) => seal_vault(s, secret.as_str(), Some(id)),
        }
    }

    fn encrypt_no_id(&self, s: &str) -> (r: Result<String, EncryptionError>)
        ensures
            match self.no_id_secret() {
                Err(f) => r matches Err(e) && e.failure() == f,
                Ok(secret) => r matches Ok(t) && seals(t@, s@, secret),
            },
    {
        match self.no_id_key() {
            Err(e) => Err(e),
            Ok(secret) => seal_vault(s, secret.as_str(), None),
        }
    }
}

} // verus!
