//! Turning the vaulted values of a YAML document into prefixed clear text, and back.

use crate::key_files::Failure;
use crate::text::{
    chars_of, find_from, find_from_exec, lemma_find_from, occurs_at, occurs_at_exec, trim, trim_str,
};
use crate::vault_crypto::seals;
use crate::vault_encryption::{outcome, seals_with_id, Encryption, EncryptionError, VaultEncryption};
use crate::vault_header::{extract_vault_id, vault_id_of};
use crate::yaml::{entry_models, lemma_entry_models, lemma_models, models, Yaml, YamlValue};
use vstd::prelude::*;

verus! {

broadcast use vstd::string::group_string_axioms;

/// The marker that opens an identifier in a prefixed value: `<id:`.
pub open spec fn id_open() -> Seq<char> {
    "<id:"@
}

/// What a clear-text value (after the `<vaulted>` prefix) says of its vault identifier:
/// `<id:ID>REST` with a non-empty `ID` (the text up to the first `>`) gives `(ID, REST)`.
pub open spec fn id_property_of(s: Seq<char>) -> Option<(Seq<char>, Seq<char>)> {
    if !occurs_at(s, 0, id_open()) {
        None
    } else {
        match find_from(s, '>', 0) {
            None => None,
            Some(r) => if r <= id_open().len() {
                None
            } else {
                Some((s.subrange(id_open().len() as int, r), s.subrange(r + 1, s.len() as int)))
            },
        }
    }
}

/// An identifier read from a clear-text value, and the value that follows it.
#[derive(PartialEq, Eq, Debug)]
pub struct IdProperty<'a> {
    pub id: &'a str,
    pub stripped: &'a str,
}

/// Reads the `<id:ID>` marker that may open a clear-text value (see `id_property_of`).
pub fn extract_vault_id_vaulting<'a>(no_prefix: &'a str) -> (r: Option<IdProperty<'a>>)
    ensures
        match id_property_of(no_prefix@) {
            Some((id, rest)) => r matches Some(p) && p.id@ == id && p.stripped@ == rest,
            None => r is None,
        },
{
    let v = chars_of(no_prefix);
    let open = chars_of("<id:");
    proof {
        reveal_strlit("<id:");
        assert(id_open().len() == 4);
        lemma_find_from(v@, '>', 0);
    }
    if !occurs_at_exec(&v, 0, &open) {
        return None;
    }
    match find_from_exec(&v, '>', 0) {
        None => None,
        Some(r) => {
            if r <= 4 {
                None
            } else {
                assert(v@.len() == v.len());
                assert(r < v@.len());
                let id = no_prefix.substring_char(4, r);
                let stripped = no_prefix.substring_char(r + 1, v.len());
                assert(occurs_at(no_prefix@, 0, id_open()));
                assert(find_from(no_prefix@, '>', 0) == Some(r as int));
                assert(id@ == no_prefix@.subrange(4, r as int));
                Some(IdProperty { id, stripped })
            }
        },
    }
}

/// The vault identifier named by a vaulted value's header (see `vault_id_of`).
pub fn extract_vault_id_unvaulting(value: &str) -> (r: Option<String>)
    ensures
        match vault_id_of(value@) {
            Some(id) => r matches Some(x) && x@ == id,
            None => r is None,
        },
{
    extract_vault_id(value)
}

/// Law: an identifier marker written in front of a value is read back exactly, provided the
/// identifier is not empty and holds no `>`.
pub proof fn law_id_marker_round_trip(id: Seq<char>, rest: Seq<char>)
    requires
        id.len() > 0,
        forall|i: int| 0 <= i < id.len() ==> id[i] != '>',
    ensures
        id_property_of(id_open() + id + seq!['>'] + rest) == Some((id, rest)),
{
    reveal_strlit("<id:");
    let s = id_open() + id + seq!['>'] + rest;
    assert(s.subrange(0, 4) =~= id_open());
    lemma_find_from(s, '>', 0);
    let r: int = 4 + id.len() as int;
    assert(s[r] == '>');
    assert forall|k: int| 0 <= k < r implies s[k] != '>' by {
        if k >= 4 {
            assert(s[k] == id[k - 4]);
        }
    }
    assert(s.subrange(4, r) =~= id);
    assert(s.subrange(r + 1, s.len() as int) =~= rest);
}

/// Law: a value whose identifier marker is read splits back into the marker and the rest.
pub proof fn law_id_marker_split(s: Seq<char>)
    ensures
        id_property_of(s) matches Some((id, rest)) ==> {
            &&& s == id_open() + id + seq!['>'] + rest
            &&& id.len() > 0
            &&& forall|i: int| 0 <= i < id.len() ==> id[i] != '>'
        },
{
    reveal_strlit("<id:");
    if let Some((id, rest)) = id_property_of(s) {
        lemma_find_from(s, '>', 0);
        let r = find_from(s, '>', 0)->0;
        assert(s =~= id_open() + id + seq!['>'] + rest);
        assert forall|i: int| 0 <= i < id.len() implies id[i] != '>' by {
            assert(id[i] == s[i + 4]);
        }
    }
}

/// The prefix that marks a clear-text value to be vaulted: `<vaulted>`.
pub open spec fn vaulted_prefix() -> Seq<char> {
    "<vaulted>"@
}

/// The tag of a vaulted value: `!vault` (the leading `!` is not significant).
pub open spec fn is_vault_tag(tag: Seq<char>) -> bool {
    tag == "vault"@ || tag == "!vault"@
}

/// Why a value could not be vaulted or unvaulted: the value, and the failure.
#[derive(Debug)]
pub struct VisitError {
    pub value: String,
    pub error: EncryptionError,
}

/// The clear text that a vaulted value `s` unvaults to: the `<vaulted>` prefix, then
/// `<id:ID>` when the vault header names `ID`, then the decrypted text.
pub open spec fn unvault_text(enc: VaultEncryption, s: Seq<char>) -> Result<Seq<char>, Failure> {
    match vault_id_of(s) {
        Some(id) => match VaultEncryption::decrypt_with(enc.id_secret(id), trim(s)) {
            Ok(p) => Ok(vaulted_prefix() + id_open() + id + ">"@ + p),
            Err(f) => Err(f),
        },
        None => match VaultEncryption::decrypt_with(enc.no_id_secret(), trim(s)) {
            Ok(p) => Ok(vaulted_prefix() + p),
            Err(f) => Err(f),
        },
    }
}

/// What unvaulting a YAML value gives: every string tagged `!vault` that is a value of a
/// mapping or an item of a sequence becomes its clear text (see `unvault_text`); the first
/// failure, in document order, stops it.
pub open spec fn unvaulted(enc: VaultEncryption, y: Yaml) -> Result<Yaml, (Seq<char>, Failure)>
    decreases y,
{
    match y {
        Yaml::Mapping(es) => match unvaulted_entries(enc, es) {
            Ok(es2) => Ok(Yaml::Mapping(es2)),
            Err(e) => Err(e),
        },
        Yaml::Sequence(items) => match unvaulted_items(enc, items) {
            Ok(items2) => Ok(Yaml::Sequence(items2)),
            Err(e) => Err(e),
        },
        Yaml::Tagged(tag, inner) => if is_vault_tag(tag) {
            match *inner {
                Yaml::Str(s) => match unvault_text(enc, s) {
                    Ok(t) => Ok(Yaml::Str(t)),
                    Err(f) => Err((s, f)),
                },
                _ => Ok(y),
            }
        } else {
            Ok(y)
        },
        _ => Ok(y),
    }
}

/// Unvaulting the items of a sequence, in order.
pub open spec fn unvaulted_items(enc: VaultEncryption, items: Seq<Yaml>) -> Result<
    Seq<Yaml>,
    (Seq<char>, Failure),
>
    decreases items,
{
    if items.len() == 0 {
        Ok(seq![])
    } else {
        match unvaulted_items(enc, items.drop_last()) {
            Err(e) => Err(e),
            Ok(done) => match unvaulted(enc, items.last()) {
                Err(e) => Err(e),
                Ok(x) => Ok(done.push(x)),
            },
        }
    }
}

/// Unvaulting the values of a mapping, in order; the keys are kept.
pub open spec fn unvaulted_entries(enc: VaultEncryption, es: Seq<(Yaml, Yaml)>) -> Result<
    Seq<(Yaml, Yaml)>,
    (Seq<char>, Failure),
>
    decreases es,
{
    if es.len() == 0 {
        Ok(seq![])
    } else {
        match unvaulted_entries(enc, es.drop_last()) {
            Err(e) => Err(e),
            Ok(done) => match unvaulted(enc, es.last().1) {
                Err(e) => Err(e),
                Ok(x) => Ok(done.push((es.last().0, x))),
            },
        }
    }
}

/// The model of the outcome of visiting a value.
pub open spec fn visit_outcome(r: Result<YamlValue, VisitError>) -> Result<Yaml, (Seq<char>, Failure)> {
    match r {
        Ok(v) => Ok(v.model()),
        Err(e) => Err((e.value@, e.error.failure())),
    }
}

/// Lemma: a failure in a prefix of the items is the failure of all of them.
pub proof fn lemma_unvaulted_items_prefix_err(enc: VaultEncryption, items: Seq<Yaml>, i: int)
    requires
        0 <= i <= items.len(),
        unvaulted_items(enc, items.take(i)) is Err,
    ensures
        unvaulted_items(enc, items) == unvaulted_items(enc, items.take(i)),
    decreases items.len() - i,
{
    if i < items.len() {
        assert(items.take(i + 1).drop_last() =~= items.take(i));
        lemma_unvaulted_items_prefix_err(enc, items, i + 1);
    } else {
        assert(items.take(i) =~= items);
    }
}

/// Lemma: a failure in a prefix of the entries is the failure of all of them.
pub proof fn lemma_unvaulted_entries_prefix_err(enc: VaultEncryption, es: Seq<(Yaml, Yaml)>, i: int)
    requires
        0 <= i <= es.len(),
        unvaulted_entries(enc, es.take(i)) is Err,
    ensures
        unvaulted_entries(enc, es) == unvaulted_entries(enc, es.take(i)),
    decreases es.len() - i,
{
    if i < es.len() {
        assert(es.take(i + 1).drop_last() =~= es.take(i));
        lemma_unvaulted_entries_prefix_err(enc, es, i + 1);
    } else {
        assert(es.take(i) =~= es);
    }
}

/// How a clear-text value is to be vaulted: `None` when it does not start with
/// `<vaulted>`; else the vault identifier that its `<id:ID>` marker names, if any, and the
/// trimmed text to encrypt.
pub open spec fn vault_plan(s: Seq<char>) -> Option<(Option<Seq<char>>, Seq<char>)> {
    if !occurs_at(s, 0, vaulted_prefix()) {
        None
    } else {
        let rest = s.skip(vaulted_prefix().len() as int);
        match id_property_of(rest) {
            Some((id, stripped)) => Some((Some(id), trim(stripped))),
            None => Some((None, trim(rest))),
        }
    }
}

/// The secret that encrypts with the vault identifier `id`, or without identifier.
pub open spec fn plan_secret(enc: VaultEncryption, id: Option<Seq<char>>) -> Result<Seq<char>, Failure> {
    match id {
        Some(i) => enc.id_secret(i),
        None => enc.no_id_secret(),
    }
}

/// `t` is a vault text that the clear-text value `s` may be vaulted to.
pub open spec fn vaults_to(enc: VaultEncryption, s: Seq<char>, t: Seq<char>) -> bool {
    match vault_plan(s) {
        None => false,
        Some((id, plain)) => match plan_secret(enc, id) {
            Err(_) => false,
            Ok(secret) => match id {
                Some(i) => seals_with_id(t, plain, secret, i),
                None => seals(t, plain, secret),
            },
        },
    }
}

/// `w` is what vaulting the YAML value `y` may give: every string that is a value of a
/// mapping or an item of a sequence and starts with `<vaulted>` becomes a string tagged
/// `!vault` that holds its encrypted text (see `vaults_to`); all else is kept.
pub open spec fn vaulted(enc: VaultEncryption, y: Yaml, w: Yaml) -> bool
    decreases y,
{
    match y {
        Yaml::Str(s) => if vault_plan(s) is Some {
            &&& w matches Yaml::Tagged(tag, inner)
            &&& tag == "vault"@
            &&& inner.is_str()
            &&& vaults_to(enc, s, inner.str_text())
        } else {
            w == y
        },
        Yaml::Mapping(es) => w matches Yaml::Mapping(ws) && vaulted_entries(enc, es, ws),
        Yaml::Sequence(xs) => w matches Yaml::Sequence(ws) && vaulted_items(enc, xs, ws),
        _ => w == y,
    }
}

/// Vaulting the items of a sequence, item by item.
pub open spec fn vaulted_items(enc: VaultEncryption, xs: Seq<Yaml>, ws: Seq<Yaml>) -> bool
    decreases xs,
{
    &&& xs.len() == ws.len()
    &&& (xs.len() == 0 || (vaulted_items(enc, xs.drop_last(), ws.drop_last()) && vaulted(
        enc,
        xs.last(),
        ws.last(),
    )))
}

/// Vaulting the values of a mapping, entry by entry; the keys are kept.
pub open spec fn vaulted_entries(enc: VaultEncryption, es: Seq<(Yaml, Yaml)>, ws: Seq<(Yaml, Yaml)>) -> bool
    decreases es,
{
    &&& es.len() == ws.len()
    &&& (es.len() == 0 || (vaulted_entries(enc, es.drop_last(), ws.drop_last()) && ws.last().0
        == es.last().0 && vaulted(enc, es.last().1, ws.last().1)))
}

/// The first value, in document order, that vaulting `y` fails on, with the failure: a
/// string that is a value of a mapping or an item of a sequence, starts with `<vaulted>`,
/// and whose secret is not found. `None` when there is none.
pub open spec fn vault_failure(enc: VaultEncryption, y: Yaml) -> Option<(Seq<char>, Failure)>
    decreases y,
{
    match y {
        Yaml::Str(s) => match vault_plan(s) {
            Some((id, _)) => match plan_secret(enc, id) {
                Err(f) => Some((s, f)),
                Ok(_) => None,
            },
            None => None,
        },
        Yaml::Mapping(es) => vault_failure_entries(enc, es),
        Yaml::Sequence(xs) => vault_failure_items(enc, xs),
        _ => None,
    }
}

/// The first failure of vaulting the items `xs`, in order.
pub open spec fn vault_failure_items(enc: VaultEncryption, xs: Seq<Yaml>) -> Option<(Seq<char>, Failure)>
    decreases xs,
{
    if xs.len() == 0 {
        None
    } else {
        match vault_failure_items(enc, xs.drop_last()) {
            Some(f) => Some(f),
            None => vault_failure(enc, xs.last()),
        }
    }
}

/// The first failure of vaulting the values of the entries `es`, in order.
pub open spec fn vault_failure_entries(enc: VaultEncryption, es: Seq<(Yaml, Yaml)>) -> Option<(Seq<char>, Failure)>
    decreases es,
{
    if es.len() == 0 {
        None
    } else {
        match vault_failure_entries(enc, es.drop_last()) {
            Some(f) => Some(f),
            None => vault_failure(enc, es.last().1),
        }
    }
}

/// Lemma: a failure within a prefix of the items is the first failure of all of them.
pub proof fn lemma_vault_failure_items_prefix(enc: VaultEncryption, xs: Seq<Yaml>, i: int)
    requires
        0 <= i <= xs.len(),
        vault_failure_items(enc, xs.take(i)) is Some,
    ensures
        vault_failure_items(enc, xs) == vault_failure_items(enc, xs.take(i)),
    decreases xs.len() - i,
{
    if i < xs.len() {
        assert(xs.take(i + 1).drop_last() =~= xs.take(i));
        lemma_vault_failure_items_prefix(enc, xs, i + 1);
    } else {
        assert(xs.take(i) =~= xs);
    }
}

/// Lemma: a failure within a prefix of the entries is the first failure of all of them.
pub proof fn lemma_vault_failure_entries_prefix(enc: VaultEncryption, es: Seq<(Yaml, Yaml)>, i: int)
    requires
        0 <= i <= es.len(),
        vault_failure_entries(enc, es.take(i)) is Some,
    ensures
        vault_failure_entries(enc, es) == vault_failure_entries(enc, es.take(i)),
    decreases es.len() - i,
{
    if i < es.len() {
        assert(es.take(i + 1).drop_last() =~= es.take(i));
        lemma_vault_failure_entries_prefix(enc, es, i + 1);
    } else {
        assert(es.take(i) =~= es);
    }
}

/// Turns the vaulted values of YAML properties into prefixed clear text, and back.
pub struct PropertiesVisitor {
    pub encryption: VaultEncryption,
}

impl PropertiesVisitor {
    /// A visitor that encrypts and decrypts with `encryption`.
    pub fn new(encryption: VaultEncryption) -> (r: PropertiesVisitor)
        ensures
            r.encryption == encryption,
    {
        PropertiesVisitor { encryption }
    }

    /// The clear text of the vaulted value `s` (see `unvault_text`).
    pub fn unvault_text(&self, s: &str) -> (r: Result<String, EncryptionError>)
        ensures
            outcome(r) == unvault_text(self.encryption, s@),
    {
        proof {
            reveal_strlit("<vaulted>");
            reveal_strlit("<id:");
            reveal_strlit(">");
        }
        match extract_vault_id_unvaulting(s) {
            Some(id) => match self.encryption.decrypt_with_id(trim_str(s), id.as_str()) {
                Ok(res) => {
                    let mut t = String::from_str("<vaulted>");
                    t.append("<id:");
                    t.append(id.as_str());
                    t.append(">");
                    t.append(res.as_str());
                    Ok(t)
                },
                Err(e) => Err(e),
            },
            None => match self.encryption.decrypt_no_id(trim_str(s)) {
                Ok(res) => {
                    let mut t = String::from_str("<vaulted>");
                    t.append(res.as_str());
                    Ok(t)
                },
                Err(e) => Err(e),
            },
        }
    }

    /// Vaults the clear-text value `s`: `None` when it does not start with `<vaulted>`; an
    /// error when its secret is not found; else its encrypted text.
    pub fn vault_text(&self, s: &str) -> (r: Option<Result<String, EncryptionError>>)
        ensures
            match vault_plan(s@) {
                None => r is None,
                Some((id, _)) => match plan_secret(self.encryption, id) {
                    Err(f) => r matches Some(Err(e)) && e.failure() == f,
                    Ok(_) => r matches Some(Ok(t)) && vaults_to(self.encryption, s@, t@),
                },
            },
    {
        let v = chars_of(s);
        let prefix = chars_of("<vaulted>");
        proof {
            reveal_strlit("<vaulted>");
            assert(vaulted_prefix().len() == 9);
        }
        if !occurs_at_exec(&v, 0, &prefix) {
            return None;
        }
        let no_prefix = s.substring_char(9, v.len());
        assert(no_prefix@ =~= s@.skip(9));
        match extract_vault_id_vaulting(no_prefix) {
            Some(id_property) => Some(
                self.encryption.encrypt_with_id(trim_str(id_property.stripped), id_property.id),
            ),
            None => Some(self.encryption.encrypt_no_id(trim_str(no_prefix))),
        }
    }

    /// Vaults a YAML value (see `vaulted`); it fails exactly when a value to be vaulted has
    /// no secret, and then names the first such value (see `vault_failure`).
    #[verifier::loop_isolation(false)]
    pub fn do_visit_vaulting(&self, val: &YamlValue) -> (r: Result<YamlValue, VisitError>)
        ensures
            match vault_failure(self.encryption, val.model()) {
                None => r matches Ok(w) && vaulted(self.encryption, val.model(), w.model()),
                Some((s, f)) => r matches Err(e) && e.value@ == s && e.error.failure() == f,
            },
        decreases val,
    {
        match val {
            YamlValue::Mapping(entries) => {
                let mut out: Vec<(YamlValue, YamlValue)> = Vec::new();
                let mut i: usize = 0;
                while i < entries.len()
                    invariant
                        i <= entries@.len(),
                        vaulted_entries(
                            self.encryption,
                            entry_models(entries@.take(i as int)),
                            entry_models(out@),
                        ),
                        vault_failure_entries(self.encryption, entry_models(entries@.take(i as int))) is None,
                    decreases entries.len() - i,
                {
                    proof {
                        assert(decreases_to!(val => entries@[i as int].1));
                        assert(entries@.take(i + 1).drop_last() =~= entries@.take(i as int));
                        lemma_entry_models(entries@.take(i + 1));
                        lemma_entry_models(entries@.take(i as int));
                        assert(entry_models(entries@.take(i + 1)).drop_last() =~= entry_models(
                            entries@.take(i as int),
                        ));
                    }
                    let v = self.do_visit_vaulting(&entries[i].1);
                    match v {
                        Err(e) => {
                            proof {
                                lemma_entry_models(entries@);
                                assert(entry_models(entries@).take(i + 1) =~= entry_models(
                                    entries@.take(i + 1),
                                ));
                                lemma_vault_failure_entries_prefix(
                                    self.encryption,
                                    entry_models(entries@),
                                    i + 1,
                                );
                            }
                            return Err(e);
                        },
                        Ok(x) => {
                            let k = entries[i].0.copy();
                            let ghost before = out@;
                            out.push((k, x));
                            proof {
                                assert(out@.drop_last() =~= before);
                                assert(entry_models(out@).drop_last() =~= entry_models(before));
                                assert(entry_models(out@).last() == (k.model(), x.model()));
                                assert(entry_models(entries@.take(i + 1)).last() == (
                                    entries@[i as int].0.model(),
                                    entries@[i as int].1.model(),
                                ));
                            }
                        },
                    }
                    i = i + 1;
                }
                proof {
                    assert(entries@.take(entries@.len() as int) =~= entries@);
                }
                Ok(YamlValue::Mapping(out))
            },
            YamlValue::Sequence(items) => {
                let mut out: Vec<YamlValue> = Vec::new();
                let mut i: usize = 0;
                while i < items.len()
                    invariant
                        i <= items@.len(),
                        vaulted_items(self.encryption, models(items@.take(i as int)), models(out@)),
                        vault_failure_items(self.encryption, models(items@.take(i as int))) is None,
                    decreases items.len() - i,
                {
                    proof {
                        assert(decreases_to!(val => items@[i as int]));
                        assert(items@.take(i + 1).drop_last() =~= items@.take(i as int));
                        lemma_models(items@.take(i + 1));
                        lemma_models(items@.take(i as int));
                        assert(models(items@.take(i + 1)).drop_last() =~= models(
                            items@.take(i as int),
                        ));
                    }
                    let v = self.do_visit_vaulting(&items[i]);
                    match v {
                        Err(e) => {
                            proof {
                                lemma_models(items@);
                                assert(models(items@).take(i + 1) =~= models(items@.take(i + 1)));
                                lemma_vault_failure_items_prefix(
                                    self.encryption,
                                    models(items@),
                                    i + 1,
                                );
                            }
                            return Err(e);
                        },
                        Ok(x) => {
                            let ghost before = out@;
                            out.push(x);
                            proof {
                                assert(out@.drop_last() =~= before);
                                assert(models(out@).drop_last() =~= models(before));
                                assert(models(out@).last() == x.model());
                                assert(models(items@.take(i + 1)).last() == items@[i as int].model());
                            }
                        },
                    }
                    i = i + 1;
                }
                proof {
                    assert(items@.take(items@.len() as int) =~= items@);
                }
                Ok(YamlValue::Sequence(out))
            },
            YamlValue::String(s) => match self.vault_text(s.as_str()) {
                None => Ok(val.copy()),
                Some(Ok(t)) => {
                    proof {
                        reveal_strlit("vault");
                    }
                    let inner = YamlValue::String(t);
                    assert(inner.model() == Yaml::Str(t@));
                    let w = YamlValue::Tagged(String::from_str("vault"), Box::new(inner));
                    assert(w.model() == Yaml::Tagged("vault"@, Box::new(Yaml::Str(t@))));
                    Ok(w)
                },
                Some(Err(e)) => Err(VisitError { value: s.clone(), error: e }),
            },
            _ => Ok(val.copy()),
        }
    }

    /// Unvaults a YAML value (see `unvaulted`).
    #[verifier::loop_isolation(false)]
    pub fn do_visit_unvaulting(&self, val: &YamlValue) -> (r: Result<YamlValue, VisitError>)
        ensures
            visit_outcome(r) == unvaulted(self.encryption, val.model()),
        decreases val,
    {
        match val {
            YamlValue::Mapping(entries) => {
                let mut out: Vec<(YamlValue, YamlValue)> = Vec::new();
                let mut i: usize = 0;
                while i < entries.len()
                    invariant
                        i <= entries@.len(),
                        unvaulted_entries(self.encryption, entry_models(entries@.take(i as int)))
                            == Ok::<Seq<(Yaml, Yaml)>, (Seq<char>, Failure)>(entry_models(out@)),
                    decreases entries.len() - i,
                {
                    proof {
                        assert(decreases_to!(val => entries@[i as int].1));
                        assert(entries@.take(i + 1).drop_last() =~= entries@.take(i as int));
                        lemma_entry_models(entries@.take(i + 1));
                        lemma_entry_models(entries@.take(i as int));
                        assert(entry_models(entries@.take(i + 1)).drop_last() =~= entry_models(
                            entries@.take(i as int),
                        ));
                    }
                    let v = self.do_visit_unvaulting(&entries[i].1);
                    match v {
                        Err(e) => {
                            proof {
                                lemma_entry_models(entries@);
                                assert(entry_models(entries@).take(i + 1) =~= entry_models(
                                    entries@.take(i + 1),
                                ));
                                lemma_unvaulted_entries_prefix_err(
                                    self.encryption,
                                    entry_models(entries@),
                                    i + 1,
                                );
                            }
                            return Err(e);
                        },
                        Ok(x) => {
                            let k = entries[i].0.copy();
                            let ghost before = out@;
                            out.push((k, x));
                            proof {
                                assert(out@.drop_last() =~= before);
                            }
                        },
                    }
                    i = i + 1;
                }
                proof {
                    assert(entries@.take(entries@.len() as int) =~= entries@);
                }
                assert(val.model() == Yaml::Mapping(entry_models(entries@)));
                assert(YamlValue::Mapping(out).model() == Yaml::Mapping(entry_models(out@)));
                Ok(YamlValue::Mapping(out))
            },
            YamlValue::Sequence(items) => {
                let mut out: Vec<YamlValue> = Vec::new();
                let mut i: usize = 0;
                while i < items.len()
                    invariant
                        i <= items@.len(),
                        unvaulted_items(self.encryption, models(items@.take(i as int))) == Ok::<
                            Seq<Yaml>,
                            (Seq<char>, Failure),
                        >(models(out@)),
                    decreases items.len() - i,
                {
                    proof {
                        assert(decreases_to!(val => items@[i as int]));
                        assert(items@.take(i + 1).drop_last() =~= items@.take(i as int));
                        lemma_models(items@.take(i + 1));
                        lemma_models(items@.take(i as int));
                        assert(models(items@.take(i + 1)).drop_last() =~= models(
                            items@.take(i as int),
                        ));
                    }
                    let v = self.do_visit_unvaulting(&items[i]);
                    match v {
                        Err(e) => {
                            proof {
                                lemma_models(items@);
                                assert(models(items@).take(i + 1) =~= models(items@.take(i + 1)));
                                lemma_unvaulted_items_prefix_err(
                                    self.encryption,
                                    models(items@),
                                    i + 1,
                                );
                            }
                            return Err(e);
                        },
                        Ok(x) => {
                            let ghost before = out@;
                            out.push(x);
                            proof {
                                assert(out@.drop_last() =~= before);
                            }
                        },
                    }
                    i = i + 1;
                }
                proof {
                    assert(items@.take(items@.len() as int) =~= items@);
                }
                Ok(YamlValue::Sequence(out))
            },
            YamlValue::Tagged(tag, inner) => {
                proof {
                    reveal_strlit("vault");
                    reveal_strlit("!vault");
                }
                let vault_tag = crate::text::same_text(tag.as_str(), "vault")
                    || crate::text::same_text(tag.as_str(), "!vault");
                assert(vault_tag == is_vault_tag(tag@));
                if !vault_tag {
                    return Ok(val.copy());
                }
                assert(val.model() == Yaml::Tagged(tag@, Box::new(inner.model())));
                match &**inner {
                    YamlValue::String(s) => match self.unvault_text(s.as_str()) {
                        Ok(t) => Ok(YamlValue::String(t)),
                        Err(e) => Err(VisitError { value: s.clone(), error: e }),
                    },
                    _ => Ok(val.copy()),
                }
            },
            _ => Ok(val.copy()),
        }
    }
}

} // verus!
