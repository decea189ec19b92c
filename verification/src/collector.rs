//! Collecting the decrypted secrets of YAML properties: within mappings, each string tagged
//! `!vault` becomes its clear text, or is kept when it cannot be decrypted.

use crate::decrypt::{Decrypt, VaultDecrypt};
use crate::properties_visitor::is_vault_tag;
use crate::text::{trim, trim_str};
use crate::vault_header::vault_id_of;
use crate::yaml::{entry_models, lemma_entry_models, Yaml, YamlValue};
use vstd::prelude::*;

verus! {

broadcast use vstd::string::group_string_axioms;

/// The vault identifier that a vaulted value's header names (see `vault_id_of`).
pub fn extract_vault_id(value: &str) -> (r: Option<String>)
    ensures
        match vault_id_of(value@) {
            Some(id) => r matches Some(x) && x@ == id,
            None => r is None,
        },
{
    crate::vault_header::extract_vault_id(value)
}

/// What collecting gives for a YAML value (see the module documentation).
pub open spec fn collected(dec: VaultDecrypt, y: Yaml) -> Yaml
    decreases y,
{
    match y {
        Yaml::Mapping(es) => Yaml::Mapping(collected_entries(dec, es)),
        Yaml::Tagged(tag, inner) => if is_vault_tag(tag) && inner.is_str() {
            match dec.decryption(trim(inner.str_text()), vault_id_of(inner.str_text())) {
                Ok(p) => Yaml::Str(p),
                Err(_) => y,
            }
        } else {
            y
        },
        _ => y,
    }
}

/// Collecting the values of a mapping; the keys are kept.
pub open spec fn collected_entries(dec: VaultDecrypt, es: Seq<(Yaml, Yaml)>) -> Seq<(Yaml, Yaml)>
    decreases es,
{
    if es.len() == 0 {
        seq![]
    } else {
        collected_entries(dec, es.drop_last()).push((es.last().0, collected(dec, es.last().1)))
    }
}

/// Every vaulted value that collecting decrypts gives text.
pub open spec fn collectable(dec: VaultDecrypt, y: Yaml) -> bool
    decreases y,
{
    match y {
        Yaml::Mapping(es) => collectable_entries(dec, es),
        Yaml::Tagged(tag, inner) => is_vault_tag(tag) && inner.is_str() ==> dec.decrypts_to_text(
            trim(inner.str_text()),
            vault_id_of(inner.str_text()),
        ),
        _ => true,
    }
}

/// Every value of the entries `es` is collectable.
pub open spec fn collectable_entries(dec: VaultDecrypt, es: Seq<(Yaml, Yaml)>) -> bool
    decreases es,
{
    es.len() == 0 || (collectable_entries(dec, es.drop_last()) && collectable(dec, es.last().1))
}

/// Lemma: collectable entries have collectable values.
proof fn lemma_collectable_entries(dec: VaultDecrypt, es: Seq<(Yaml, Yaml)>, i: int)
    requires
        0 <= i < es.len(),
        collectable_entries(dec, es),
    ensures
        collectable(dec, es[i].1),
        collectable_entries(dec, es.take(i + 1)),
    decreases es.len(),
{
    if i < es.len() - 1 {
        assert(es.drop_last()[i] == es[i]);
        assert(es.drop_last().take(i + 1) =~= es.take(i + 1));
        lemma_collectable_entries(dec, es.drop_last(), i);
    } else {
        assert(es.take(i + 1) =~= es);
    }
}

/// Collects the decrypted secrets of YAML properties.
pub struct SecretsCollector {
    pub decrypt: VaultDecrypt,
}

impl SecretsCollector {
    /// A collector that decrypts with `decrypt`.
    pub fn new(decrypt: VaultDecrypt) -> (r: SecretsCollector)
        ensures
            r.decrypt == decrypt,
    {
        SecretsCollector { decrypt }
    }

    /// Whether every vaulted value that collecting `val` decrypts gives text.
    #[verifier::loop_isolation(false)]
    pub fn can_traverse(&self, val: &YamlValue) -> (r: bool)
        ensures
            r == collectable(self.decrypt, val.model()),
        decreases val,
    {
        match val {
            YamlValue::Mapping(entries) => {
                let mut i: usize = 0;
                while i < entries.len()
                    invariant
                        i <= entries@.len(),
                        collectable_entries(self.decrypt, entry_models(entries@.take(i as int))),
                    decreases entries.len() - i,
                {
                    proof {
                        assert(decreases_to!(val => entries@[i as int].1));
                        assert(entries@.take(i + 1).drop_last() =~= entries@.take(i as int));
                        lemma_entry_models(entries@.take(i + 1));
                        assert(entry_models(entries@.take(i + 1)).drop_last() =~= entry_models(
                            entries@.take(i as int),
                        ));
                    }
                    if !self.can_traverse(&entries[i].1) {
                        proof {
                            lemma_entry_models(entries@);
                            if collectable_entries(self.decrypt, entry_models(entries@)) {
                                lemma_collectable_entries(self.decrypt, entry_models(entries@), i as int);
                            }
                        }
                        return false;
                    }
                    i = i + 1;
                }
                proof {
                    assert(entries@.take(entries@.len() as int) =~= entries@);
                }
                true
            },
            YamlValue::Tagged(tag, inner) => {
                proof {
                    reveal_strlit("vault");
                    reveal_strlit("!vault");
                }
                let vault_tag = crate::text::same_text(tag.as_str(), "vault")
                    || crate::text::same_text(tag.as_str(), "!vault");
                assert(val.model() == Yaml::Tagged(tag@, Box::new(inner.model())));
                if !vault_tag {
                    return true;
                }
                match &**inner {
                    YamlValue::String(s) => {
                        let id = extract_vault_id(s.as_str());
                        match id {
                            Some(id) => self.decrypt.gives_text(trim_str(s.as_str()), Some(id.as_str())),
                            None => self.decrypt.gives_text(trim_str(s.as_str()), None),
                        }
                    },
                    _ => true,
                }
            },
            _ => true,
        }
    }

    /// Decrypts the vaulted values of `val` (see `collected`).
    #[verifier::loop_isolation(false)]
    pub fn traverse(&self, val: &YamlValue) -> (r: YamlValue)
        requires
            collectable(self.decrypt, val.model()),
        ensures
            r.model() == collected(self.decrypt, val.model()),
        decreases val,
    {
        match val {
            YamlValue::Mapping(entries) => {
                let mut out: Vec<(YamlValue, YamlValue)> = Vec::new();
                let mut i: usize = 0;
                while i < entries.len()
                    invariant
                        i <= entries@.len(),
                        collectable_entries(self.decrypt, entry_models(entries@)),
                        collected_entries(self.decrypt, entry_models(entries@.take(i as int)))
                            == entry_models(out@),
                    decreases entries.len() - i,
                {
                    proof {
                        assert(decreases_to!(val => entries@[i as int].1));
                        assert(entries@.take(i + 1).drop_last() =~= entries@.take(i as int));
                        lemma_entry_models(entries@.take(i + 1));
                        lemma_entry_models(entries@);
                        lemma_collectable_entries(self.decrypt, entry_models(entries@), i as int);
                        assert(entry_models(entries@.take(i + 1)).drop_last() =~= entry_models(
                            entries@.take(i as int),
                        ));
                    }
                    let x = self.traverse(&entries[i].1);
                    let k = entries[i].0.copy();
                    let ghost before = out@;
                    out.push((k, x));
                    proof {
                        assert(out@.drop_last() =~= before);
                        assert(entry_models(out@).drop_last() =~= entry_models(before));
                    }
                    i = i + 1;
                }
                proof {
                    assert(entries@.take(entries@.len() as int) =~= entries@);
                }
                YamlValue::Mapping(out)
            },
            YamlValue::Tagged(tag, inner) => {
                proof {
                    reveal_strlit("vault");
                    reveal_strlit("!vault");
                }
                let vault_tag = crate::text::same_text(tag.as_str(), "vault")
                    || crate::text::same_text(tag.as_str(), "!vault");
                assert(val.model() == Yaml::Tagged(tag@, Box::new(inner.model())));
                if !vault_tag {
                    return val.copy();
                }
                match &**inner {
                    YamlValue::String(s) => {
                        let res = match extract_vault_id(s.as_str()) {
                            Some(id) => self.decrypt.decrypt_with_id(trim_str(s.as_str()), id.as_str()),
                            None => self.decrypt.decrypt_no_id(trim_str(s.as_str())),
                        };
                        match res {
                            Ok(res) => YamlValue::String(res),
                            Err(_) => val.copy(),
                        }
                    },
                    _ => val.copy(),
                }
            },
            _ => val.copy(),
        }
    }

    /// Decrypts the vaulted values of `val` (see `collected`) when every one that decrypts
    /// gives text; `None` otherwise.
    pub fn traverse_checked(&self, val: &YamlValue) -> (r: Option<YamlValue>)
        ensures
            collectable(self.decrypt, val.model()) ==> (r matches Some(v) && v.model() == collected(
                self.decrypt,
                val.model(),
            )),
            !collectable(self.decrypt, val.model()) ==> r is None,
    {
        if self.can_traverse(val) {
            Some(self.traverse(val))
        } else {
            None
        }
    }
}

} // verus!
