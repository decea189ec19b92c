//! A lenient walk over YAML properties: decrypted values get the `<vaulted>` prefix (without
//! identifier marker), values that cannot be encrypted or decrypted are kept, and only
//! mappings are walked into.

use crate::key_files::Failure;
use crate::properties_visitor::{is_vault_tag, vaulted_prefix};
use crate::text::{chars_of, occurs_at, occurs_at_exec, trim, trim_str};
use crate::vault_crypto::seals;
use crate::vault_encryption::{seals_with_id, Encryption, VaultEncryption};
use crate::vault_header::vault_id_of;
use crate::yaml::{entry_models, lemma_entry_models, Yaml, YamlValue};
use vstd::prelude::*;

verus! {

broadcast use vstd::string::group_string_axioms;

/// The vault identifier that a vaulted value's header names (see `vault_id_of`).
pub fn extract_vault_id(value: &str) -> (r: Option<String>)
    ensures
        match vault_id_of(value@) {
            Some(id) => r matches Some(x) && x@ == id,
            None => r is None,
        },
{
    crate::vault_header::extract_vault_id(value)
}

/// The secret for the vault identifier `id`, or for no identifier.
pub open spec fn secret_for(enc: VaultEncryption, id: Option<Seq<char>>) -> Result<Seq<char>, Failure> {
    match id {
        Some(i) => enc.id_secret(i),
        None => enc.no_id_secret(),
    }
}

/// The prefixed clear text of the vaulted value `s`, if it decrypts.
pub open spec fn walk_unvault_text(enc: VaultEncryption, s: Seq<char>) -> Option<Seq<char>> {
    match VaultEncryption::decrypt_with(secret_for(enc, vault_id_of(s)), trim(s)) {
        Ok(p) => Some(vaulted_prefix() + p),
        Err(_) => None,
    }
}

/// What the walk unvaults a YAML value to: within mappings, each string tagged `!vault` that
/// decrypts becomes its prefixed clear text; all else is kept.
pub open spec fn walk_unvaulted(enc: VaultEncryption, y: Yaml) -> Yaml
    decreases y,
{
    match y {
        Yaml::Mapping(es) => Yaml::Mapping(walk_unvaulted_entries(enc, es)),
        Yaml::Tagged(tag, inner) => if is_vault_tag(tag) && inner.is_str() {
            match walk_unvault_text(enc, inner.str_text()) {
                Some(t) => Yaml::Str(t),
                None => y,
            }
        } else {
            y
        },
        _ => y,
    }
}

/// The walk over the values of a mapping; the keys are kept.
pub open spec fn walk_unvaulted_entries(enc: VaultEncryption, es: Seq<(Yaml, Yaml)>) -> Seq<(Yaml, Yaml)>
    decreases es,
{
    if es.len() == 0 {
        seq![]
    } else {
        walk_unvaulted_entries(enc, es.drop_last()).push((es.last().0, walk_unvaulted(enc, es.last().1)))
    }
}

/// `t` is a vault text that the prefixed value `s` may be encrypted to by the walk: the text
/// after the prefix, trimmed, under the identifier that a vault header in it names, if any.
pub open spec fn walk_seals(enc: VaultEncryption, s: Seq<char>, t: Seq<char>) -> bool {
    let rest = s.skip(vaulted_prefix().len() as int);
    match secret_for(enc, vault_id_of(rest)) {
        Err(_) => false,
        Ok(secret) => match vault_id_of(rest) {
            Some(id) => seals_with_id(t, trim(rest), secret, id),
            None => seals(t, trim(rest), secret),
        },
    }
}

/// `w` is what the walk may vault the YAML value `y` to: within mappings, each string that
/// starts with `<vaulted>` becomes a string tagged `!vault` that holds its encrypted text
/// when its secret is found, and is kept when it is not.
pub open spec fn walk_vaulted(enc: VaultEncryption, y: Yaml, w: Yaml) -> bool
    decreases y,
{
    match y {
        Yaml::Str(s) => if occurs_at(s, 0, vaulted_prefix()) {
            let rest = s.skip(vaulted_prefix().len() as int);
            if secret_for(enc, vault_id_of(rest)) is Err {
                w == y
            } else {
                w matches Yaml::Tagged(tag, inner) && tag == "vault"@ && inner.is_str() && walk_seals(
                    enc,
                    s,
                    inner.str_text(),
                )
            }
        } else {
            w == y
        },
        Yaml::Mapping(es) => w matches Yaml::Mapping(ws) && walk_vaulted_entries(enc, es, ws),
        _ => w == y,
    }
}

/// The walk over the values of a mapping, entry by entry; the keys are kept.
pub open spec fn walk_vaulted_entries(enc: VaultEncryption, es: Seq<(Yaml, Yaml)>, ws: Seq<(Yaml, Yaml)>) -> bool
    decreases es,
{
    &&& es.len() == ws.len()
    &&& (es.len() == 0 || (walk_vaulted_entries(enc, es.drop_last(), ws.drop_last()) && ws.last().0
        == es.last().0 && walk_vaulted(enc, es.last().1, ws.last().1)))
}

/// Walks YAML properties, vaulting and unvaulting their values.
pub struct PropertiesWalker {
    pub encryption: VaultEncryption,
}

impl PropertiesWalker {
    /// A walker that encrypts and decrypts with `encryption`.
    pub fn new(encryption: VaultEncryption) -> (r: PropertiesWalker)
        ensures
            r.encryption == encryption,
    {
        PropertiesWalker { encryption }
    }

    /// Unvaults a YAML value (see `walk_unvaulted`).
    #[verifier::loop_isolation(false)]
    pub fn visit_unvaulting(&self, val: &YamlValue) -> (r: YamlValue)
        ensures
            r.model() == walk_unvaulted(self.encryption, val.model()),
        decreases val,
    {
        match val {
            YamlValue::Mapping(entries) => {
                let mut out: Vec<(YamlValue, YamlValue)> = Vec::new();
                let mut i: usize = 0;
                while i < entries.len()
                    invariant
                        i <= entries@.len(),
                        walk_unvaulted_entries(self.encryption, entry_models(entries@.take(i as int)))
                            == entry_models(out@),
                    decreases entries.len() - i,
                {
                    proof {
                        assert(decreases_to!(val => entries@[i as int].1));
                        assert(entries@.take(i + 1).drop_last() =~= entries@.take(i as int));
                        lemma_entry_models(entries@.take(i + 1));
                        assert(entry_models(entries@.take(i + 1)).drop_last() =~= entry_models(
                            entries@.take(i as int),
                        ));
                    }
                    let x = self.visit_unvaulting(&entries[i].1);
                    let k = entries[i].0.copy();
                    let ghost before = out@;
                    out.push((k, x));
                    proof {
                        assert(out@.drop_last() =~= before);
                        assert(entry_models(out@).drop_last() =~= entry_models(before));
                    }
                    i = i + 1;
                }
                proof {
                    assert(entries@.take(entries@.len() as int) =~= entries@);
                }
                YamlValue::Mapping(out)
            },
            YamlValue::Tagged(tag, inner) => {
                proof {
                    reveal_strlit("vault");
                    reveal_strlit("!vault");
                }
                let vault_tag = crate::text::same_text(tag.as_str(), "vault")
                    || crate::text::same_text(tag.as_str(), "!vault");
                assert(val.model() == Yaml::Tagged(tag@, Box::new(inner.model())));
                if !vault_tag {
                    return val.copy();
                }
                match &**inner {
                    YamlValue::String(s) => {
                        let id = extract_vault_id(s.as_str());
                        let unvaulted = match id {
                            Some(id) => self.encryption.decrypt_with_id(trim_str(s.as_str()), id.as_str()),
                            None => self.encryption.decrypt_no_id(trim_str(s.as_str())),
                        };
                        match unvaulted {
                            Ok(res) => {
                                proof {
                                    reveal_strlit("<vaulted>");
                                }
                                let mut t = String::from_str("<vaulted>");
                                t.append(res.as_str());
                                YamlValue::String(t)
                            },
                            Err(_) => val.copy(),
                        }
                    },
                    _ => val.copy(),
                }
            },
            _ => val.copy(),
        }
    }

    /// Vaults a YAML value (see `walk_vaulted`).
    #[verifier::loop_isolation(false)]
    pub fn visit_vaulting(&self, val: &YamlValue) -> (r: YamlValue)
        ensures
            walk_vaulted(self.encryption, val.model(), r.model()),
        decreases val,
    {
        match val {
            YamlValue::Mapping(entries) => {
                let mut out: Vec<(YamlValue, YamlValue)> = Vec::new();
                let mut i: usize = 0;
                while i < entries.len()
                    invariant
                        i <= entries@.len(),
                        walk_vaulted_entries(
                            self.encryption,
                            entry_models(entries@.take(i as int)),
                            entry_models(out@),
                        ),
                    decreases entries.len() - i,
                {
                    proof {
                        assert(decreases_to!(val => entries@[i as int].1));
                        assert(entries@.take(i + 1).drop_last() =~= entries@.take(i as int));
                        lemma_entry_models(entries@.take(i + 1));
                        lemma_entry_models(entries@.take(i as int));
                        assert(entry_models(entries@.take(i + 1)).drop_last() =~= entry_models(
                            entries@.take(i as int),
                        ));
                    }
                    let x = self.visit_vaulting(&entries[i].1);
                    let k = entries[i].0.copy();
                    let ghost before = out@;
                    out.push((k, x));
                    proof {
                        assert(out@.drop_last() =~= before);
                        assert(entry_models(out@).drop_last() =~= entry_models(before));
                        assert(entry_models(out@).last() == (k.model(), x.model()));
                        assert(entry_models(entries@.take(i + 1)).last() == (
                            entries@[i as int].0.model(),
                            entries@[i as int].1.model(),
                        ));
                    }
                    i = i + 1;
                }
                proof {
                    assert(entries@.take(entries@.len() as int) =~= entries@);
                }
                YamlValue::Mapping(out)
            },
            YamlValue::String(s) => {
                let v = chars_of(s.as_str());
                let prefix = chars_of("<vaulted>");
                proof {
                    reveal_strlit("<vaulted>");
                    reveal_strlit("vault");
                    assert(vaulted_prefix().len() == 9);
                }
                if !occurs_at_exec(&v, 0, &prefix) {
                    return val.copy();
                }
                let no_prefix = s.as_str().substring_char(9, v.len());
                assert(no_prefix@ =~= s@.skip(9));
                let vaulted = match extract_vault_id(no_prefix) {
                    Some(id) => self.encryption.encrypt_with_id(trim_str(no_prefix), id.as_str()),
                    None => self.encryption.encrypt_no_id(trim_str(no_prefix)),
                };
                match vaulted {
                    Ok(res) => {
                        let inner = YamlValue::String(res);
                        assert(inner.model() == Yaml::Str(res@));
                        let w = YamlValue::Tagged(String::from_str("vault"), Box::new(inner));
                        assert(w.model() == Yaml::Tagged("vault"@, Box::new(Yaml::Str(res@))));
                        w
                    },
                    Err(_) => val.copy(),
                }
            },
            _ => val.copy(),
        }
    }
}

} // verus!
