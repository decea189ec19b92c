//! The vault password files as they were found on disk, and the secrets they hold.

use crate::text::{is_trim_of, lemma_trim_is_trim_of, same_text, trim, trim_str};
use vstd::prelude::*;

verus! {

/// Why a secret could not be used to encrypt or decrypt.
pub enum Failure {
    NoVaultFileWithId(Seq<char>),
    NoIdLessVaultFile,
    VaultFileMissing(Seq<char>),
    Unreadable(Seq<char>),
    NoFirstLine,
    Cipher,
    NotUtf8,
}

/// A vault password file: whether it is a file, and what reading it gave (its text, or the
/// message of the failure).
pub struct KeyFile {
    pub path: String,
    pub is_file: bool,
    pub contents: Result<String, String>,
}

/// The vault password files that were looked at.
pub struct KeyFiles {
    pub files: Vec<KeyFile>,
}

/// The first entry for `path`.
pub open spec fn key_file_entry(files: Seq<KeyFile>, path: Seq<char>) -> Option<KeyFile>
    decreases files.len(),
{
    if files.len() == 0 {
        None
    } else if files[0].path@ == path {
        Some(files[0])
    } else {
        key_file_entry(files.drop_first(), path)
    }
}

/// The secret of the password file `path`: its trimmed text. With `require_file`, a path
/// that is not a file is missing; a path that was not looked at is missing either way.
pub open spec fn secret_of(files: Seq<KeyFile>, path: Seq<char>, require_file: bool) -> Result<
    Seq<char>,
    Failure,
> {
    match key_file_entry(files, path) {
        None => Err(Failure::VaultFileMissing(path)),
        Some(f) => if require_file && !f.is_file {
            Err(Failure::VaultFileMissing(path))
        } else {
            match f.contents {
                Ok(text) => Ok(trim(text@)),
                Err(m) => Err(Failure::Unreadable(m@)),
            }
        },
    }
}

impl KeyFiles {
    /// The secret of the password file `path` (see `secret_of`); the error is the path that
    /// is missing, or the message of the failed read.
    pub fn secret(&self, path: &str, require_file: bool) -> (r: Result<String, (bool, String)>)
        ensures
            match secret_of(self.files@, path@, require_file) {
                Ok(s) => r matches Ok(x) && x@ == s,
                Err(Failure::VaultFileMissing(p)) => r matches Err((missing, x)) && missing && x@ == p,
                Err(Failure::Unreadable(m)) => r matches Err((missing, x)) && !missing && x@ == m,
                Err(_) => false,
            },
    {
        let mut i: usize = 0;
        assert(self.files@.skip(0) =~= self.files@);
        while i < self.files.len()
            invariant
                i <= self.files@.len(),
                key_file_entry(self.files@, path@) == key_file_entry(self.files@.skip(i as int), path@),
            decreases self.files.len() - i,
        {
            assert(self.files@.skip(i as int).drop_first() =~= self.files@.skip(i + 1));
            let f = &self.files[i];
            if same_text(f.path.as_str(), path) {
                if require_file && !f.is_file {
                    return Err((true, path.to_owned()));
                }
                return match &f.contents {
                    Ok(text) => Ok(trim_str(text.as_str()).to_owned()),
                    Err(m) => Err((false, m.clone())),
                };
            }
            i = i + 1;
        }
        Err((true, path.to_owned()))
    }
}

/// Law: the secret of a password file that was read is its whole text with the white space
/// at both ends cut, and nothing else cut (a secret may hold inner spaces); with
/// `require_file`, only where the path is a file.
pub proof fn law_secret_is_trimmed_contents(files: Seq<KeyFile>, path: Seq<char>, require_file: bool)
    requires
        key_file_entry(files, path) matches Some(f) && f.contents is Ok && (!require_file || f.is_file),
    ensures
        secret_of(files, path, require_file) matches Ok(k) && is_trim_of(
            key_file_entry(files, path)->0.contents->Ok_0@,
            k,
        ),
{
    lemma_trim_is_trim_of(key_file_entry(files, path)->0.contents->Ok_0@);
}

} // verus!
