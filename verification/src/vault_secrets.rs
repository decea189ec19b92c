//! The vault password files of a project: one without identifier, and one per vault
//! identifier, as `ansible.cfg` names them.

use crate::ansible_cfg::{find_setting, setting_value};
use crate::path_map::{pairs_map, pairs_view, PathMap};
use crate::text::{
    chars_of, find_from_exec, lemma_find_from, lemma_find_from_is, lemma_find_from_none,
    lemma_find_shift, split_on, split_once,
};
use vstd::prelude::*;

verus! {

broadcast use vstd::string::group_string_axioms;

/// The setting that names the vault password file without identifier.
pub open spec fn password_file_setting() -> Seq<char> {
    "vault_password_file"@
}

/// The setting that lists the `identifier@path` vault password files.
pub open spec fn identity_list_setting() -> Seq<char> {
    "vault_identity_list"@
}

/// The `(identifier, path)` pairs of a list of `identifier@path` entries, in order; an
/// entry without `@` is left out, and the path is all that follows the first `@`.
pub open spec fn identity_pairs(entries: Seq<Seq<char>>) -> Seq<(Seq<char>, Seq<char>)>
    decreases entries.len(),
{
    if entries.len() == 0 {
        seq![]
    } else {
        let first = match split_once(entries[0], '@') {
            Some(p) => seq![p],
            None => seq![],
        };
        first + identity_pairs(entries.drop_first())
    }
}

/// The `(identifier, path)` pairs of a comma-separated identity list.
pub open spec fn identity_list_pairs(list: Seq<char>) -> Seq<(Seq<char>, Seq<char>)> {
    identity_pairs(split_on(list, ','))
}

/// The `(identifier, path)` pairs that the configuration text `cfg` declares.
pub open spec fn config_identity_pairs(cfg: Seq<char>) -> Seq<(Seq<char>, Seq<char>)> {
    match setting_value(cfg, identity_list_setting()) {
        Some(list) => identity_list_pairs(list),
        None => seq![],
    }
}

/// The `(identifier, path)` pairs of a comma-separated identity list (see
/// `identity_list_pairs`).
pub fn parse_identity_list(list: &str) -> (r: Vec<(String, String)>)
    ensures
        pairs_view(r@) == identity_list_pairs(list@),
{
    scan_identity_list(list).0
}

/// Every entry of an identity list holds a `@`.
pub open spec fn entries_complete(list: Seq<char>) -> bool {
    forall|i: int| 0 <= i < split_on(list, ',').len() ==> (split_once(#[trigger] split_on(list, ',')[i], '@') is Some)
}

/// Lemma: the entries give as many pairs as there are entries exactly when each holds a `@`.
proof fn lemma_identity_pairs_len(entries: Seq<Seq<char>>)
    ensures
        identity_pairs(entries).len() <= entries.len(),
        (identity_pairs(entries).len() == entries.len()) <==> (forall|i: int|
            0 <= i < entries.len() ==> (split_once(#[trigger] entries[i], '@') is Some)),
    decreases entries.len(),
{
    if entries.len() > 0 {
        lemma_identity_pairs_len(entries.drop_first());
        if forall|i: int| 0 <= i < entries.len() ==> (split_once(#[trigger] entries[i], '@') is Some) {
            assert forall|i: int| 0 <= i < entries.drop_first().len() implies (split_once(
                #[trigger] entries.drop_first()[i],
                '@',
            ) is Some) by {
                assert(entries.drop_first()[i] == entries[i + 1]);
            }
        }
        if forall|i: int| 0 <= i < entries.drop_first().len() ==> (split_once(
            #[trigger] entries.drop_first()[i],
            '@',
        ) is Some) {
            if split_once(entries[0], '@') is Some {
                assert forall|i: int| 0 <= i < entries.len() implies (split_once(
                    #[trigger] entries[i],
                    '@',
                ) is Some) by {
                    if i > 0 {
                        assert(entries[i] == entries.drop_first()[i - 1]);
                    }
                }
            }
        }
    }
}

/// Whether every entry of an identity list holds a `@`.
pub fn identity_list_complete(list: &str) -> (r: bool)
    ensures
        r == entries_complete(list@),
{
    let (pairs, count) = scan_identity_list(list);
    proof {
        lemma_identity_pairs_len(split_on(list@, ','));
    }
    pairs.len() as u128 == count
}

/// The pairs of an identity list, and the number of its entries.
fn scan_identity_list(list: &str) -> (r: (Vec<(String, String)>, u128))
    ensures
        pairs_view(r.0@) == identity_list_pairs(list@),
        r.1 == split_on(list@, ',').len(),
{
    let v = chars_of(list);
    let n = v.len();
    let mut out: Vec<(String, String)> = Vec::new();
    let mut st: usize = 0;
    let mut count: u128 = 0;
    assert(list@.skip(0) =~= list@);
    assert(pairs_view(out@) =~= Seq::<(Seq<char>, Seq<char>)>::empty());
    assert(pairs_view(out@) + identity_pairs(split_on(list@.skip(0), ',')) =~= identity_list_pairs(
        list@,
    ));
    loop
        invariant
            v@ == list@,
            n == v@.len(),
            st <= n,
            pairs_view(out@) + identity_pairs(split_on(list@.skip(st as int), ','))
                == identity_list_pairs(list@),
            count + split_on(list@.skip(st as int), ',').len() == split_on(list@, ',').len(),
            count <= st,
        decreases n - st,
    {
        let ghost rest = list@.skip(st as int);
        proof {
            lemma_find_shift(list@, ',', 0, st as int);
            lemma_find_from(list@, ',', st as int);
        }
        let found = find_from_exec(&v, ',', st);
        let e = match found {
            Some(e) => e,
            None => n,
        };
        let ghost piece = list@.subrange(st as int, e as int);
        proof {
            match found {
                Some(_) => {
                    assert(rest.take(e - st) =~= piece);
                    assert(rest.skip(e - st + 1) =~= list@.skip(e + 1));
                    assert(split_on(rest, ',') == seq![piece] + split_on(list@.skip(e + 1), ','));
                },
                None => {
                    assert(rest =~= piece);
                    assert(split_on(rest, ',') == seq![piece]);
                },
            }
            let ps = split_on(rest, ',');
            assert(ps[0] == piece);
        }
        let at = find_from_exec(&v, '@', st);
        proof {
            lemma_find_from(list@, '@', st as int);
        }
        let ghost before = pairs_view(out@);
        match at {
            Some(a) if a < e => {
                proof {
                    assert forall|k: int| 0 <= k < a - st implies piece[k] != '@' by {
                        assert(piece[k] == list@[k + st]);
                    }
                    assert(piece[a - st] == list@[a as int]);
                    lemma_find_from_is(piece, '@', 0, a - st);
                    assert(piece.take(a - st) =~= list@.subrange(st as int, a as int));
                    assert(piece.skip(a - st + 1) =~= list@.subrange(a + 1, e as int));
                }
                let label = list.substring_char(st, a).to_owned();
                let path = list.substring_char(a + 1, e).to_owned();
                out.push((label, path));
                proof {
                    assert(pairs_view(out@) =~= before.push((label@, path@)));
                }
            },
            _ => {
                proof {
                    assert forall|k: int| 0 <= k < piece.len() implies piece[k] != '@' by {
                        assert(piece[k] == list@[k + st]);
                    }
                    lemma_find_from_none(piece, '@', 0);
                }
            },
        }
        proof {
            let ps = split_on(rest, ',');
            assert(identity_pairs(ps) == (match split_once(piece, '@') {
                Some(p) => seq![p],
                None => seq![],
            }) + identity_pairs(ps.drop_first()));
            match found {
                Some(_) => {
                    assert(ps.drop_first() =~= split_on(list@.skip(e + 1), ','));
                },
                None => {
                    assert(ps.drop_first() =~= Seq::<Seq<char>>::empty());
                },
            }
        }
        count = count + 1;
        match found {
            Some(_) => {
                st = e + 1;
                proof {
                    assert(pairs_view(out@) + identity_pairs(split_on(list@.skip(st as int), ','))
                        =~= before + identity_pairs(split_on(rest, ',')));
                }
            },
            None => {
                assert(pairs_view(out@) =~= before + identity_pairs(split_on(rest, ',')));
                return (out, count);
            },
        }
    }
}

/// The value of `vault_password_file` in the configuration text `cfg`.
pub fn parse_no_id(cfg: &str) -> (r: Option<String>)
    ensures
        match setting_value(cfg@, password_file_setting()) {
            Some(v) => r matches Some(x) && x@ == v,
            None => r is None,
        },
{
    proof {
        reveal_strlit("vault_password_file");
    }
    find_setting(cfg, "vault_password_file")
}

/// The vault identifiers of `vault_identity_list` in the configuration text `cfg`, each with
/// its password file; an entry without `@` is left out, and a later entry for an identifier
/// replaces an earlier one.
pub fn parse_ids(cfg: &str) -> (r: PathMap)
    ensures
        pairs_view(r.pairs@) == config_identity_pairs(cfg@),
        r@ == pairs_map(config_identity_pairs(cfg@)),
{
    proof {
        reveal_strlit("vault_identity_list");
    }
    match find_setting(cfg, "vault_identity_list") {
        None => {
            let r = PathMap::empty();
            assert(pairs_view(r.pairs@) =~= Seq::<(Seq<char>, Seq<char>)>::empty());
            r
        },
        Some(list) => PathMap { pairs: parse_identity_list(list.as_str()) },
    }
}

/// Why the vault password files could not be determined.
#[derive(PartialEq, Eq, Debug)]
pub enum SecretsError {
    /// The configuration names no vault password file at all.
    MissingVaultFiles,
    /// The given vault password file does not exist.
    FileDoesNotExist(String),
}

impl SecretsError {
    /// The message that reports the error.
    pub fn message(&self) -> (r: String)
        ensures
            r@ == self.message_spec(),
    {
        match self {
            SecretsError::MissingVaultFiles => String::from_str("Missing any vault file path"),
            SecretsError::FileDoesNotExist(path) => {
                let mut m = String::from_str("File '");
                m.append(path.as_str());
                m.append("' does not exist");
                m
            },
        }
    }

    /// The text of the message that reports the error.
    pub open spec fn message_spec(&self) -> Seq<char> {
        match self {
            SecretsError::MissingVaultFiles => "Missing any vault file path"@,
            SecretsError::FileDoesNotExist(path) => "File '"@ + path@ + "' does not exist"@,
        }
    }
}

/// `~` and `~/...` paths are the ones whose leading `~` stands for the home directory.
pub open spec fn names_home(path: Seq<char>) -> bool {
    path.len() > 0 && path[0] == '~' && (path.len() == 1 || path[1] == '/' || path[1] == '\\')
}

/// Expands a leading `~` of `path` to the home directory, by `shellexpand::tilde`.
///
/// Trusted: the home directory comes from the environment, so all that is claimed is that a
/// path that does not name the home directory comes back unchanged, and that one that does
/// comes back unchanged or with its `~` replaced by some text.
#[verifier::external_body]
fn expand_home(path: &str) -> (r: String)
    ensures
        !names_home(path@) ==> r@ == path@,
        names_home(path@) ==> (r@ == path@ || exists|home: Seq<char>| r@ == home + path@.skip(1)),
{
    shellexpand::tilde(path).to_string()
}

/// The vault password files: one without identifier, and one per vault identifier.
pub struct VaultSecrets {
    pub no_id: Option<String>,
    pub ids: PathMap,
}

/// `expanded` is `path` as home-directory expansion may have given it back.
pub open spec fn expansion_of(path: Seq<char>, expanded: Seq<char>) -> bool {
    &&& !names_home(path) ==> expanded == path
    &&& names_home(path) ==> (expanded == path || exists|home: Seq<char>| expanded == home + path.skip(1))
}

/// Lemma: expanding the paths of a list of pairs, name by name, expands the paths of the map
/// that it denotes, which keeps its names.
proof fn lemma_expanded_map(src: Seq<(Seq<char>, Seq<char>)>, ex: Seq<(Seq<char>, Seq<char>)>)
    requires
        ex.len() == src.len(),
        forall|i: int|
            0 <= i < src.len() ==> (#[trigger] ex[i]).0 == src[i].0 && expansion_of(src[i].1, ex[i].1),
    ensures
        pairs_map(ex).dom() == pairs_map(src).dom(),
        forall|k: Seq<char>|
            #[trigger] pairs_map(src).contains_key(k) ==> expansion_of(pairs_map(src)[k], pairs_map(ex)[k]),
    decreases src.len(),
{
    if src.len() > 0 {
        let n = src.len() - 1;
        assert forall|i: int| 0 <= i < src.drop_last().len() implies (#[trigger] ex.drop_last()[i]).0
            == src.drop_last()[i].0 && expansion_of(src.drop_last()[i].1, ex.drop_last()[i].1) by {
            assert(ex.drop_last()[i] == ex[i]);
            assert(src.drop_last()[i] == src[i]);
        }
        lemma_expanded_map(src.drop_last(), ex.drop_last());
        assert(ex.last() == ex[n] && src.last() == src[n]);
        assert(pairs_map(ex).dom() =~= pairs_map(src).dom());
    }
}

impl VaultSecrets {
    /// The password file without identifier.
    pub open spec fn no_id_path(&self) -> Option<Seq<char>> {
        match &self.no_id {
            Some(p) => Some(p@),
            None => None,
        }
    }

    /// Reads the vault password files that the configuration text `cfg` names, expanding a
    /// leading `~` of each path; fails when it names none.
    pub fn from_config(cfg: &str) -> (r: Result<VaultSecrets, SecretsError>)
        ensures
            (r is Err) <==> (setting_value(cfg@, password_file_setting()) is None
                && config_identity_pairs(cfg@).len() == 0),
            r matches Err(e) ==> e == SecretsError::MissingVaultFiles,
            r matches Ok(v) ==> {
                &&& match setting_value(cfg@, password_file_setting()) {
                    Some(p) => v.no_id_path() matches Some(x) && expansion_of(p, x),
                    None => v.no_id is None,
                }
                &&& pairs_view(v.ids.pairs@).len() == config_identity_pairs(cfg@).len()
                &&& forall|i: int|
                    0 <= i < config_identity_pairs(cfg@).len() ==> {
                        &&& (#[trigger] pairs_view(v.ids.pairs@)[i]).0
                            == config_identity_pairs(cfg@)[i].0
                        &&& expansion_of(config_identity_pairs(cfg@)[i].1, pairs_view(v.ids.pairs@)[i].1)
                    }
                &&& v.ids@.dom() == pairs_map(config_identity_pairs(cfg@)).dom()
                &&& forall|id: Seq<char>|
                    #[trigger] pairs_map(config_identity_pairs(cfg@)).contains_key(id) ==> expansion_of(
                        pairs_map(config_identity_pairs(cfg@))[id],
                        v.ids@[id],
                    )
            },
    {
        let vault_file = match parse_no_id(cfg) {
            Some(f) => Some(expand_home(f.as_str())),
            None => None,
        };
        let ids = parse_ids(cfg);
        let ghost src = pairs_view(ids.pairs@);
        let mut expanded: Vec<(String, String)> = Vec::new();
        let mut i: usize = 0;
        while i < ids.pairs.len()
            invariant
                src == pairs_view(ids.pairs@),
                src == config_identity_pairs(cfg@),
                i <= src.len(),
                pairs_view(expanded@).len() == i,
                forall|k: int|
                    0 <= k < i ==> {
                        &&& (#[trigger] pairs_view(expanded@)[k]).0 == src[k].0
                        &&& expansion_of(src[k].1, pairs_view(expanded@)[k].1)
                    },
            decreases ids.pairs.len() - i,
        {
            let label = ids.pairs[i].0.clone();
            let path = expand_home(ids.pairs[i].1.as_str());
            let ghost before = pairs_view(expanded@);
            let ghost added = (label@, path@);
            expanded.push((label, path));
            proof {
                assert(pairs_view(expanded@) =~= before.push(added));
                assert(src[i as int] == (ids.pairs@[i as int].0@, ids.pairs@[i as int].1@));
            }
            i = i + 1;
        }
        proof {
            lemma_expanded_map(src, pairs_view(expanded@));
        }
        let vault_ids = PathMap { pairs: expanded };
        if vault_file.is_none() && vault_ids.is_empty() {
            return Err(SecretsError::MissingVaultFiles);
        }
        Ok(VaultSecrets { no_id: vault_file, ids: vault_ids })
    }

    /// The vault password file given on its own, which must exist (`path_exists` tells
    /// whether it does).
    pub fn from_path(path: &str, path_exists: bool) -> (r: Result<VaultSecrets, SecretsError>)
        ensures
            !path_exists ==> (r matches Err(e) && e matches SecretsError::FileDoesNotExist(p) && p@
                == path@),
            path_exists ==> (r matches Ok(v) && v.no_id_path() == Some(path@) && v.ids@ == Map::<
                Seq<char>,
                Seq<char>,
            >::empty()),
    {
        if !path_exists {
            return Err(SecretsError::FileDoesNotExist(path.to_owned()));
        }
        Ok(VaultSecrets { no_id: Some(path.to_owned()), ids: PathMap::empty() })
    }

    /// The password file without identifier.
    pub fn get_no_id(&self) -> (r: Option<&str>)
        ensures
            match self.no_id_path() {
                Some(p) => r matches Some(x) && x@ == p,
                None => r is None,
            },
    {
        match &self.no_id {
            Some(p) => Some(p.as_str()),
            None => None,
        }
    }

    /// The password file of the vault identifier `id`.
    pub fn get_id(&self, id: &str) -> (r: Option<&str>)
        ensures
            match r {
                Some(p) => self.ids@.contains_key(id@) && self.ids@[id@] == p@,
                None => !self.ids@.contains_key(id@),
            },
    {
        match self.ids.get(id) {
            Some(p) => Some(p.as_str()),
            None => None,
        }
    }
}

} // verus!
