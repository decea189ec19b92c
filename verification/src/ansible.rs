//! Decrypting through the `ansible-vault` command: its argument, and what its exit status
//! and output come to.

use crate::text::{decimal, decimal_text};
use crate::vault::Vault;
use vstd::prelude::*;

verus! {

broadcast use vstd::string::group_string_axioms;

/// Decryption by the `ansible-vault` command, with the password file without identifier.
pub struct Ansible {
    pub vault: Vault,
}

impl Ansible {
    /// The command-line argument that names the password file (empty when there is none).
    pub fn password_file_argument(&self) -> (r: String)
        ensures
            r@ == "--vault-password-file="@ + match self.vault.no_id_path() {
                Some(p) => p,
                None => Seq::<char>::empty(),
            },
    {
        let mut a = String::from_str("--vault-password-file=");
        match self.vault.get_no_id() {
            Some(p) => a.append(p),
            None => {
                assert(a@ =~= a@ + Seq::<char>::empty());
            },
        }
        a
    }

    /// What the command's exit status (none when it was killed) and output come to: the
    /// output on success, an error that quotes the status and the output otherwise, and the
    /// text `No exit code` when there is no status.
    pub fn decrypt_outcome(code: Option<i32>, stdout: &str) -> (r: Result<String, String>)
        ensures
            match code {
                Some(0) => r matches Ok(s) && s@ == stdout@,
                Some(c) => r matches Err(m) && m@ == "Error "@ + decimal(c as int) + " decrypting: "@
                    + stdout@,
                None => r matches Ok(s) && s@ == "No exit code"@,
            },
    {
        match code {
            Some(0) => Ok(stdout.to_owned()),
            Some(c) => {
                let mut m = String::from_str("Error ");
                let d = decimal_text(c as i64);
                m.append(d.as_str());
                m.append(" decrypting: ");
                m.append(stdout);
                Err(m)
            },
            None => Ok(String::from_str("No exit code")),
        }
    }
}

} // verus!
