//! The vault password files of `ansible.cfg`, read strictly: every entry of the identity list
//! must hold a `@`.

use crate::ansible_cfg::{find_setting, setting_value};
use crate::path_map::{pairs_map, pairs_view, PathMap};
use crate::vault_secrets::{
    entries_complete, identity_list_complete, identity_list_pairs, identity_list_setting,
    parse_identity_list, password_file_setting,
};
use vstd::prelude::*;

verus! {

broadcast use vstd::string::group_string_axioms;

/// Every entry of the identity list that `cfg` declares, if any, holds a `@`.
pub open spec fn identity_entries_complete(cfg: Seq<char>) -> bool {
    match setting_value(cfg, identity_list_setting()) {
        Some(list) => entries_complete(list),
        None => true,
    }
}

/// Whether every entry of the identity list that `cfg` declares holds a `@`.
pub fn identity_entries_are_complete(cfg: &str) -> (r: bool)
    ensures
        r == identity_entries_complete(cfg@),
{
    proof {
        reveal_strlit("vault_identity_list");
    }
    match find_setting(cfg, "vault_identity_list") {
        Some(list) => identity_list_complete(list.as_str()),
        None => true,
    }
}

/// The value of `vault_password_file` in the configuration text `cfg`.
pub fn parse_no_id(cfg: &str) -> (r: Option<String>)
    ensures
        match setting_value(cfg@, password_file_setting()) {
            Some(v) => r matches Some(x) && x@ == v,
            None => r is None,
        },
{
    crate::vault_secrets::parse_no_id(cfg)
}

/// The `identifier@path` entries of `vault_identity_list` in `cfg`, if it is set.
pub fn parse_ids(cfg: &str) -> (r: Option<PathMap>)
    requires
        identity_entries_complete(cfg@),
    ensures
        match setting_value(cfg@, identity_list_setting()) {
            Some(list) => r matches Some(m) && pairs_view(m.pairs@) == identity_list_pairs(list)
                && m@ == pairs_map(identity_list_pairs(list)),
            None => r is None,
        },
{
    proof {
        reveal_strlit("vault_identity_list");
    }
    match find_setting(cfg, "vault_identity_list") {
        Some(list) => Some(PathMap { pairs: parse_identity_list(list.as_str()) }),
        None => None,
    }
}

/// Why the vault password files could not be determined.
#[derive(PartialEq, Eq, Debug)]
pub enum VaultConfigError {
    /// The configuration names no vault password file.
    NoVaultFile,
    /// The given vault password file does not exist.
    FileDoesNotExist(String),
}

impl VaultConfigError {
    /// The text of the message that reports the error.
    pub open spec fn message_spec(&self) -> Seq<char> {
        match self {
            VaultConfigError::NoVaultFile => "Could not find any vault file in config"@,
            VaultConfigError::FileDoesNotExist(path) => "File "@ + path@ + " does not exist"@,
        }
    }

    /// The message that reports the error.
    pub fn message(&self) -> (r: String)
        ensures
            r@ == self.message_spec(),
    {
        match self {
            VaultConfigError::NoVaultFile => String::from_str(
                "Could not find any vault file in config",
            ),
            VaultConfigError::FileDoesNotExist(path) => {
                let mut m = String::from_str("File ");
                m.append(path.as_str());
                m.append(" does not exist");
                m
            },
        }
    }
}

/// The vault password files: one without identifier, and one per vault identifier.
pub struct Vault {
    pub no_id: Option<String>,
    pub ids: PathMap,
}

impl Vault {
    /// The password file without identifier.
    pub open spec fn no_id_path(&self) -> Option<Seq<char>> {
        match &self.no_id {
            Some(p) => Some(p@),
            None => None,
        }
    }

    /// Reads the vault password files that the configuration text `cfg` names; fails when it
    /// names none.
    pub fn from_config(cfg: &str) -> (r: Result<Vault, VaultConfigError>)
        requires
            identity_entries_complete(cfg@),
        ensures
            (r is Err) <==> (setting_value(cfg@, password_file_setting()) is None && setting_value(
                cfg@,
                identity_list_setting(),
            ) is None),
            r matches Err(e) ==> e == VaultConfigError::NoVaultFile,
            r matches Ok(v) ==> {
                &&& v.no_id_path() == setting_value(cfg@, password_file_setting())
                &&& pairs_view(v.ids.pairs@) == match setting_value(cfg@, identity_list_setting()) {
                    Some(list) => identity_list_pairs(list),
                    None => seq![],
                }
            },
    {
        let vault_file = parse_no_id(cfg);
        let vault_ids = parse_ids(cfg);
        if vault_file.is_none() && vault_ids.is_none() {
            return Err(VaultConfigError::NoVaultFile);
        }
        let ids = match vault_ids {
            Some(m) => m,
            None => {
                let m = PathMap::empty();
                assert(pairs_view(m.pairs@) =~= Seq::<(Seq<char>, Seq<char>)>::empty());
                m
            },
        };
        Ok(Vault { no_id: vault_file, ids })
    }

    /// The vault password file given on its own, which must exist (`path_exists` tells
    /// whether it does).
    pub fn from_path(path: &str, path_exists: bool) -> (r: Result<Vault, VaultConfigError>)
        ensures
            !path_exists ==> (r matches Err(e) && e matches VaultConfigError::FileDoesNotExist(p)
                && p@ == path@),
            path_exists ==> (r matches Ok(v) && v.no_id_path() == Some(path@) && v.ids@ == Map::<
                Seq<char>,
                Seq<char>,
            >::empty()),
    {
        if !path_exists {
            return Err(VaultConfigError::FileDoesNotExist(path.to_owned()));
        }
        Ok(Vault { no_id: Some(path.to_owned()), ids: PathMap::empty() })
    }

    /// The password file without identifier.
    pub fn get_no_id(&self) -> (r: Option<&str>)
        ensures
            match self.no_id_path() {
                Some(p) => r matches Some(x) && x@ == p,
                None => r is None,
            },
    {
        match &self.no_id {
            Some(p) => Some(p.as_str()),
            None => None,
        }
    }

    /// The password file of the vault identifier `id`.
    pub fn get_id(&self, id: &str) -> (r: Option<&str>)
        ensures
            match r {
                Some(p) => self.ids@.contains_key(id@) && self.ids@[id@] == p@,
                None => !self.ids@.contains_key(id@),
            },
    {
        match self.ids.get(id) {
            Some(p) => Some(p.as_str()),
            None => None,
        }
    }
}

} // verus!
