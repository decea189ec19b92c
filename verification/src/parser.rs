//! Listing the vaulted values of a properties file, each under the dotted path of keys that
//! the reading has gathered so far, for decryption through `ansible-vault`.

use crate::ansible::Ansible;
use crate::text::{chars_of, occurs_at, occurs_at_exec, trim, trim_str};
use crate::yaml::{entry_models, lemma_entry_models, Yaml, YamlValue};
use vstd::prelude::*;

verus! {

broadcast use vstd::string::group_string_axioms;

/// The text of a properties file without a leading `---` document marker (and then trimmed).
pub open spec fn document_body(content: Seq<char>) -> Seq<char> {
    if occurs_at(content, 0, "---"@) {
        trim(content.skip(3))
    } else {
        content
    }
}

/// The text of a properties file without a leading `---` marker (see `document_body`).
pub fn strip_document_start<'a>(content: &'a str) -> (r: &'a str)
    ensures
        r@ == document_body(content@),
{
    let v = chars_of(content);
    let marker = chars_of("---");
    proof {
        reveal_strlit("---");
    }
    if occurs_at_exec(&v, 0, &marker) {
        let rest = content.substring_char(3, v.len());
        assert(rest@ =~= content@.skip(3));
        trim_str(rest)
    } else {
        content
    }
}

/// The texts of a list of strings.
pub open spec fn texts(v: Seq<String>) -> Seq<Seq<char>> {
    v.map_values(|s: String| s@)
}

/// The parts joined with `.` between them.
pub open spec fn dotted(parts: Seq<Seq<char>>) -> Seq<char>
    decreases parts.len(),
{
    if parts.len() == 0 {
        seq![]
    } else if parts.len() == 1 {
        parts[0]
    } else {
        dotted(parts.drop_last()) + seq!['.'] + parts.last()
    }
}

/// Every mapping that the reading walks into has string keys.
pub open spec fn keys_are_strings(y: Yaml) -> bool
    decreases y,
{
    match y {
        Yaml::Tagged(_, inner) => inner.is_str() || keys_are_strings(*inner),
        Yaml::Mapping(es) => entry_keys_are_strings(es),
        _ => true,
    }
}

/// Every entry of `es` has a string key, and a value whose mappings have string keys.
pub open spec fn entry_keys_are_strings(es: Seq<(Yaml, Yaml)>) -> bool
    decreases es,
{
    es.len() == 0 || (entry_keys_are_strings(es.drop_last()) && es.last().0.is_str()
        && keys_are_strings(es.last().1))
}

/// What reading the value `y` under `key` gives, with the keys `acc` gathered so far: the
/// vaulted values found, each with its dotted path, and the keys gathered after it. A
/// tagged string adds `key` and is found under the path of all keys gathered; any other
/// tagged value is read in its place; each entry of a mapping adds `key`, then its value is
/// read under the entry's own key.
pub open spec fn secrets_of(key: Seq<char>, y: Yaml, acc: Seq<Seq<char>>) -> (
    Seq<(Seq<char>, Seq<char>)>,
    Seq<Seq<char>>,
)
    decreases y,
{
    match y {
        Yaml::Tagged(_, inner) => if inner.is_str() {
            (seq![(dotted(acc.push(key)), inner.str_text())], acc.push(key))
        } else {
            secrets_of(key, *inner, acc)
        },
        Yaml::Mapping(es) => secrets_of_entries(key, es, acc),
        _ => (seq![], acc),
    }
}

/// Reading the entries of a mapping, in order, under `key`.
pub open spec fn secrets_of_entries(key: Seq<char>, es: Seq<(Yaml, Yaml)>, acc: Seq<Seq<char>>) -> (
    Seq<(Seq<char>, Seq<char>)>,
    Seq<Seq<char>>,
)
    decreases es,
{
    if es.len() == 0 {
        (seq![], acc)
    } else {
        let (found, acc1) = secrets_of_entries(key, es.drop_last(), acc);
        let (more, acc2) = secrets_of(es.last().0.str_text(), es.last().1, acc1.push(key));
        (found + more, acc2)
    }
}

/// What reading the top-level entries gives: each entry is read with no keys gathered.
pub open spec fn document_secrets(entries: Seq<(Seq<char>, Yaml)>) -> Seq<(Seq<char>, Seq<char>)>
    decreases entries.len(),
{
    if entries.len() == 0 {
        seq![]
    } else {
        document_secrets(entries.drop_last()) + secrets_of(entries.last().0, entries.last().1, seq![]).0
    }
}

/// The text views of a list of string pairs.
pub open spec fn pair_texts(v: Seq<(String, String)>) -> Seq<(Seq<char>, Seq<char>)> {
    v.map_values(|p: (String, String)| (p.0@, p.1@))
}

/// The keys `acc` joined with `.` between them.
fn join_dotted(acc: &Vec<String>) -> (r: String)
    ensures
        r@ == dotted(texts(acc@)),
{
    let mut out = String::new();
    let mut i: usize = 0;
    while i < acc.len()
        invariant
            i <= acc@.len(),
            out@ == dotted(texts(acc@).take(i as int)),
        decreases acc.len() - i,
    {
        let ghost prev = texts(acc@).take(i as int);
        proof {
            assert(texts(acc@).take(i + 1).drop_last() =~= prev);
            assert(texts(acc@).take(i + 1).last() == acc@[i as int]@);
        }
        if i > 0 {
            out.append(".");
            proof {
                reveal_strlit(".");
            }
        } else {
            assert(prev =~= Seq::<Seq<char>>::empty());
        }
        out.append(acc[i].as_str());
        proof {
            if i == 0 {
                assert(out@ =~= dotted(texts(acc@).take(1)));
            } else {
                assert(out@ =~= dotted(prev) + seq!['.'] + acc@[i as int]@);
            }
        }
        i = i + 1;
    }
    assert(texts(acc@).take(acc@.len() as int) =~= texts(acc@));
    out
}

/// Whether every mapping that reading `value` walks into has string keys (see
/// `keys_are_strings`).
#[verifier::loop_isolation(false)]
pub fn has_string_keys(value: &YamlValue) -> (r: bool)
    ensures
        r == keys_are_strings(value.model()),
    decreases value,
{
    match value {
        YamlValue::Tagged(_, inner) => {
            assert(value.model() == Yaml::Tagged(value->Tagged_0@, Box::new(inner.model())));
            match &**inner {
                YamlValue::String(_) => true,
                _ => has_string_keys(&**inner),
            }
        },
        YamlValue::Mapping(entries) => {
            let mut i: usize = 0;
            while i < entries.len()
                invariant
                    i <= entries@.len(),
                    entry_keys_are_strings(entry_models(entries@.take(i as int))),
                decreases entries.len() - i,
            {
                proof {
                    assert(decreases_to!(value => entries@[i as int].1));
                    assert(entries@.take(i + 1).drop_last() =~= entries@.take(i as int));
                    lemma_entry_models(entries@.take(i + 1));
                    assert(entry_models(entries@.take(i + 1)).drop_last() =~= entry_models(
                        entries@.take(i as int),
                    ));
                    assert(entry_models(entries@.take(i + 1)).last() == (
                        entries@[i as int].0.model(),
                        entries@[i as int].1.model(),
                    ));
                }
                let key_ok = match &entries[i].0 {
                    YamlValue::String(_) => true,
                    _ => false,
                };
                if !key_ok || !has_string_keys(&entries[i].1) {
                    proof {
                        lemma_entry_models(entries@);
                        assert(value.model() == Yaml::Mapping(entry_models(entries@)));
                        if entry_keys_are_strings(entry_models(entries@)) {
                            lemma_entry_keys(entry_models(entries@), i as int);
                        }
                    }
                    return false;
                }
                i = i + 1;
            }
            proof {
                assert(entries@.take(entries@.len() as int) =~= entries@);
                assert(value.model() == Yaml::Mapping(entry_models(entries@)));
            }
            true
        },
        _ => true,
    }
}

/// Reads properties files and decrypts their vaulted values through `ansible-vault`.
pub struct Parser {
    pub ansible: Ansible,
}

impl Parser {
    /// Reads the value `value` under `key` (see `secrets_of`), adding what it finds to
    /// `found` and the keys it gathers to `key_acc`.
    #[verifier::loop_isolation(false)]
    pub fn parse_aux(
        &self,
        key: &str,
        value: &YamlValue,
        key_acc: &mut Vec<String>,
        found: &mut Vec<(String, String)>,
    )
        requires
            keys_are_strings(value.model()),
        ensures
            pair_texts(final(found)@) == pair_texts(old(found)@) + secrets_of(
                key@,
                value.model(),
                texts(old(key_acc)@),
            ).0,
            texts(final(key_acc)@) == secrets_of(key@, value.model(), texts(old(key_acc)@)).1,
        decreases value,
    {
        match value {
            YamlValue::Tagged(_, inner) => {
                assert(value.model() == Yaml::Tagged(value->Tagged_0@, Box::new(inner.model())));
                match &**inner {
                    YamlValue::String(s) => {
                        let ghost acc0 = key_acc@;
                        key_acc.push(key.to_owned());
                        assert(texts(key_acc@) =~= texts(acc0).push(key@));
                        let flattened = join_dotted(key_acc);
                        let ghost f0 = found@;
                        found.push((flattened, s.clone()));
                        assert(pair_texts(found@) =~= pair_texts(f0).push((flattened@, s@)));
                    },
                    _ => {
                        self.parse_aux(key, &**inner, key_acc, found);
                    },
                }
            },
            YamlValue::Mapping(entries) => {
                let ghost acc_start = texts(key_acc@);
                let ghost found_start = pair_texts(found@);
                let mut i: usize = 0;
                while i < entries.len()
                    invariant
                        i <= entries@.len(),
                        entry_keys_are_strings(entry_models(entries@)),
                        pair_texts(found@) == found_start + secrets_of_entries(
                            key@,
                            entry_models(entries@.take(i as int)),
                            acc_start,
                        ).0,
                        texts(key_acc@) == secrets_of_entries(
                            key@,
                            entry_models(entries@.take(i as int)),
                            acc_start,
                        ).1,
                    decreases entries.len() - i,
                {
                    proof {
                        assert(decreases_to!(value => entries@[i as int].1));
                        assert(entries@.take(i + 1).drop_last() =~= entries@.take(i as int));
                        lemma_entry_models(entries@.take(i + 1));
                        lemma_entry_models(entries@);
                        assert(entry_models(entries@.take(i + 1)).drop_last() =~= entry_models(
                            entries@.take(i as int),
                        ));
                        lemma_entry_keys(entry_models(entries@), i as int);
                    }
                    let ghost acc_before = texts(key_acc@);
                    let ghost found_before = pair_texts(found@);
                    key_acc.push(key.to_owned());
                    assert(texts(key_acc@) =~= acc_before.push(key@));
                    match &entries[i].0 {
                        YamlValue::String(k) => {
                            self.parse_aux(k.as_str(), &entries[i].1, key_acc, found);
                        },
                        _ => {
                            assert(false);
                        },
                    }
                    proof {
                        let es = entry_models(entries@.take(i + 1));
                        assert(es.last() == (entries@[i as int].0.model(), entries@[i as int].1.model()));
                        assert(pair_texts(found@) =~= found_start + secrets_of_entries(
                            key@,
                            es,
                            acc_start,
                        ).0);
                    }
                    i = i + 1;
                }
                proof {
                    assert(entries@.take(entries@.len() as int) =~= entries@);
                    assert(value.model() == Yaml::Mapping(entry_models(entries@)));
                }
            },
            _ => {
                assert(pair_texts(found@) =~= pair_texts(found@) + Seq::<(Seq<char>, Seq<char>)>::empty());
            },
        }
    }

    /// The vaulted values of the top-level entries of a properties file, each with its
    /// dotted path (see `document_secrets`); they are decrypted and printed in this order.
    pub fn secrets(&self, entries: &Vec<(String, YamlValue)>) -> (r: Vec<(String, String)>)
        requires
            forall|i: int| 0 <= i < entries@.len() ==> keys_are_strings(#[trigger] entries@[i].1.model()),
        ensures
            pair_texts(r@) == document_secrets(
                entries@.map_values(|e: (String, YamlValue)| (e.0@, e.1.model())),
            ),
    {
        let ghost model = entries@.map_values(|e: (String, YamlValue)| (e.0@, e.1.model()));
        let mut found: Vec<(String, String)> = Vec::new();
        let mut i: usize = 0;
        while i < entries.len()
            invariant
                i <= entries@.len(),
                model == entries@.map_values(|e: (String, YamlValue)| (e.0@, e.1.model())),
                forall|i: int| 0 <= i < entries@.len() ==> keys_are_strings(#[trigger] entries@[i].1.model()),
                pair_texts(found@) == document_secrets(model.take(i as int)),
            decreases entries.len() - i,
        {
            let mut key_acc: Vec<String> = Vec::new();
            assert(texts(key_acc@) =~= Seq::<Seq<char>>::empty());
            self.parse_aux(entries[i].0.as_str(), &entries[i].1, &mut key_acc, &mut found);
            proof {
                assert(model.take(i + 1).drop_last() =~= model.take(i as int));
                assert(model.take(i + 1).last() == (entries@[i as int].0@, entries@[i as int].1.model()));
            }
            i = i + 1;
        }
        assert(model.take(entries@.len() as int) =~= model);
        found
    }
}

/// Lemma: an entry of a mapping whose entries have string keys has a string key, and a
/// value whose mappings have string keys.
proof fn lemma_entry_keys(es: Seq<(Yaml, Yaml)>, i: int)
    requires
        0 <= i < es.len(),
        entry_keys_are_strings(es),
    ensures
        es[i].0.is_str(),
        keys_are_strings(es[i].1),
    decreases es.len(),
{
    if i < es.len() - 1 {
        assert(es.drop_last()[i] == es[i]);
        lemma_entry_keys(es.drop_last(), i);
    }
}

} // verus!
