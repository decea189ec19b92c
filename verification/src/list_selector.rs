//! Choosing the properties file to show or edit among those of an inventory.

use crate::path_map::{lemma_pairs_map_dom, lemma_pairs_map_prefix, pairs_map, pairs_view};
use crate::text::{
    lemma_text_before_irreflexive, lemma_text_before_total, lemma_text_before_transitive,
    same_text, text_before, text_before_exec,
};
use vstd::prelude::*;

verus! {

/// The properties files to choose from: each with the name it is listed under and its path,
/// in the order of their names.
pub struct FileChoices {
    pub entries: Vec<(String, String)>,
}

/// Each name of `ps` comes before the next in the order of text (so none occurs twice).
pub open spec fn names_in_order(ps: Seq<(Seq<char>, Seq<char>)>) -> bool {
    forall|i: int, j: int| 0 <= i < j < ps.len() ==> text_before(#[trigger] ps[i].0, #[trigger] ps[j].0)
}

impl View for FileChoices {
    type V = Map<Seq<char>, Seq<char>>;

    /// The path listed under each name.
    open spec fn view(&self) -> Map<Seq<char>, Seq<char>> {
        pairs_map(pairs_view(self.entries@))
    }
}

/// Lemma: where no name occurs twice, each pair is in the map.
proof fn lemma_unique_pairs_map_at(ps: Seq<(Seq<char>, Seq<char>)>, i: int)
    requires
        0 <= i < ps.len(),
        forall|a: int, b: int| 0 <= a < b < ps.len() ==> (#[trigger] ps[a]).0 != (#[trigger] ps[b]).0,
    ensures
        pairs_map(ps).contains_key(ps[i].0),
        pairs_map(ps)[ps[i].0] == ps[i].1,
{
    let k = ps[i].0;
    assert(ps.take(i + 1).drop_last() =~= ps.take(i));
    assert(ps.take(i + 1).last() == ps[i]);
    assert forall|b: int| i + 1 <= b < ps.len() implies (#[trigger] ps[b]).0 != k by {
        assert(ps[i].0 != ps[b].0);
    }
    lemma_pairs_map_prefix(ps, i + 1, k);
}

/// Lemma: names in order occur once each.
proof fn lemma_in_order_unique(ps: Seq<(Seq<char>, Seq<char>)>)
    requires
        names_in_order(ps),
    ensures
        forall|a: int, b: int| 0 <= a < b < ps.len() ==> (#[trigger] ps[a]).0 != (#[trigger] ps[b]).0,
{
    assert forall|a: int, b: int| 0 <= a < b < ps.len() implies (#[trigger] ps[a]).0 != (#[trigger] ps[b]).0 by {
        assert(text_before(ps[a].0, ps[b].0));
        lemma_text_before_irreflexive(ps[a].0);
    }
}

/// Where `name` belongs among the entries: after every name that comes before it.
fn insertion_point(entries: &Vec<(String, String)>, name: &str) -> (p: usize)
    ensures
        p <= entries@.len(),
        forall|k: int| 0 <= k < p ==> text_before(#[trigger] entries@[k].0@, name@),
        p < entries@.len() ==> !text_before(entries@[p as int].0@, name@),
{
    let mut p: usize = 0;
    while p < entries.len()
        invariant
            p <= entries@.len(),
            forall|k: int| 0 <= k < p ==> text_before(#[trigger] entries@[k].0@, name@),
        decreases entries.len() - p,
    {
        if !text_before_exec(entries[p].0.as_str(), name) {
            return p;
        }
        p = p + 1;
    }
    p
}

impl FileChoices {
    /// The names are in the order of text, each listed once.
    pub open spec fn well_formed(&self) -> bool {
        names_in_order(pairs_view(self.entries@))
    }

    /// No files.
    pub fn new() -> (r: FileChoices)
        ensures
            r.well_formed(),
            r@ == Map::<Seq<char>, Seq<char>>::empty(),
            r.entries@.len() == 0,
    {
        let r = FileChoices { entries: Vec::new() };
        assert(pairs_view(r.entries@) =~= Seq::<(Seq<char>, Seq<char>)>::empty());
        r
    }

    /// Lists the file `path` under `name`, in its place in the order of names; a file
    /// listed under the same name before is replaced.
    pub fn insert(&mut self, name: String, path: String)
        requires
            old(self).well_formed(),
        ensures
            final(self).well_formed(),
            final(self)@ == old(self)@.insert(name@, path@),
    {
        let ghost ps0 = pairs_view(self.entries@);
        let ghost entry = (name@, path@);
        let p = insertion_point(&self.entries, name.as_str());
        proof {
            lemma_in_order_unique(ps0);
            assert forall|k: int| 0 <= k < p implies text_before(#[trigger] ps0[k].0, name@) by {
                assert(ps0[k].0 == self.entries@[k].0@);
            }
        }
        let same = p < self.entries.len() && same_text(self.entries[p].0.as_str(), name.as_str());
        if same {
            self.entries.set(p, (name, path));
            let ghost ps1 = pairs_view(self.entries@);
            proof {
                assert(ps1 =~= ps0.update(p as int, entry));
                assert(ps0[p as int].0 == entry.0);
                assert forall|i: int, j: int| 0 <= i < j < ps1.len() implies text_before(
                    #[trigger] ps1[i].0,
                    #[trigger] ps1[j].0,
                ) by {
                    assert(ps1[i].0 == ps0[i].0);
                    assert(ps1[j].0 == ps0[j].0);
                }
                lemma_in_order_unique(ps1);
                assert forall|k: Seq<char>| #[trigger] pairs_map(ps1).contains_key(k) == pairs_map(ps0).insert(
                    entry.0,
                    entry.1,
                ).contains_key(k) && (pairs_map(ps1).contains_key(k) ==> pairs_map(ps1)[k] == pairs_map(
                    ps0,
                ).insert(entry.0, entry.1)[k]) by {
                    lemma_pairs_map_dom(ps0, k);
                    lemma_pairs_map_dom(ps1, k);
                    lemma_unique_pairs_map_at(ps1, p as int);
                    if k != entry.0 {
                        if pairs_map(ps1).contains_key(k) {
                            let i = choose|i: int| 0 <= i < ps1.len() && (#[trigger] ps1[i]).0 == k;
                            assert(ps0[i] == ps1[i]);
                            lemma_unique_pairs_map_at(ps1, i);
                            lemma_unique_pairs_map_at(ps0, i);
                        }
                        if pairs_map(ps0).contains_key(k) {
                            let i = choose|i: int| 0 <= i < ps0.len() && (#[trigger] ps0[i]).0 == k;
                            assert(ps0[i] == ps1[i]);
                        }
                    }
                }
                assert(pairs_map(ps1) =~= pairs_map(ps0).insert(entry.0, entry.1));
            }
        } else {
            self.entries.insert(p, (name, path));
            let ghost ps1 = pairs_view(self.entries@);
            proof {
                assert(ps1 =~= ps0.insert(p as int, entry));
                if p < ps0.len() {
                    assert(ps0[p as int].0 == self.entries@[p + 1].0@);
                    lemma_text_before_total(ps0[p as int].0, entry.0);
                }
                assert forall|k: int| p <= k < ps0.len() implies text_before(entry.0, #[trigger] ps0[k].0) by {
                    if k > p {
                        assert(text_before(ps0[p as int].0, ps0[k].0));
                        lemma_text_before_transitive(entry.0, ps0[p as int].0, ps0[k].0);
                    }
                }
                assert forall|i: int, j: int| 0 <= i < j < ps1.len() implies text_before(
                    #[trigger] ps1[i].0,
                    #[trigger] ps1[j].0,
                ) by {
                    if j < p {
                        assert(ps1[i] == ps0[i] && ps1[j] == ps0[j]);
                    } else if j == p {
                        assert(ps1[i] == ps0[i]);
                    } else if i < p {
                        assert(ps1[i] == ps0[i] && ps1[j] == ps0[j - 1]);
                        lemma_text_before_transitive(ps0[i].0, entry.0, ps0[j - 1].0);
                    } else if i == p {
                        assert(ps1[j] == ps0[j - 1]);
                    } else {
                        assert(ps1[i] == ps0[i - 1] && ps1[j] == ps0[j - 1]);
                    }
                }
                lemma_in_order_unique(ps1);
                assert forall|k: Seq<char>| #[trigger] pairs_map(ps1).contains_key(k) == pairs_map(ps0).insert(
                    entry.0,
                    entry.1,
                ).contains_key(k) && (pairs_map(ps1).contains_key(k) ==> pairs_map(ps1)[k] == pairs_map(
                    ps0,
                ).insert(entry.0, entry.1)[k]) by {
                    lemma_pairs_map_dom(ps0, k);
                    lemma_pairs_map_dom(ps1, k);
                    assert(ps1[p as int] == entry);
                    lemma_unique_pairs_map_at(ps1, p as int);
                    if k != entry.0 {
                        if pairs_map(ps1).contains_key(k) {
                            let i = choose|i: int| 0 <= i < ps1.len() && (#[trigger] ps1[i]).0 == k;
                            let i0 = if i < p { i } else { i - 1 };
                            assert(ps0[i0] == ps1[i]);
                            lemma_unique_pairs_map_at(ps1, i);
                            lemma_unique_pairs_map_at(ps0, i0);
                        }
                        if pairs_map(ps0).contains_key(k) {
                            let i = choose|i: int| 0 <= i < ps0.len() && (#[trigger] ps0[i]).0 == k;
                            let i1 = if i < p { i } else { i + 1 };
                            assert(ps0[i] == ps1[i1]);
                        }
                    }
                }
                assert(pairs_map(ps1) =~= pairs_map(ps0).insert(entry.0, entry.1));
            }
        }
    }
}

/// What choosing a file comes to without asking: no file at all, the only file, or a list
/// from which the user is to pick one.
#[derive(PartialEq, Eq, Debug)]
pub enum Selection {
    NoFiles,
    Only(String),
    Ask,
}

/// Choosing one properties file.
pub trait ListSelector {
    /// Chooses among `files`, as far as that can be done without asking.
    fn select_one(&self, files: &FileChoices) -> Selection;
}

/// Choosing through a list shown in the terminal.
pub struct TuiListSelector {}

impl TuiListSelector {
    /// A chooser that shows a list in the terminal.
    pub fn new() -> (r: TuiListSelector) {
        TuiListSelector {  }
    }

    /// The path of the file that was picked at `index` in the list.
    pub fn chosen(files: &FileChoices, index: usize) -> (r: String)
        requires
            index < files.entries@.len(),
        ensures
            r@ == files.entries@[index as int].1@,
    {
        files.entries[index].1.clone()
    }
}

impl ListSelector for TuiListSelector {
    fn select_one(&self, files: &FileChoices) -> (r: Selection)
        ensures
            files.entries@.len() == 0 ==> r == Selection::NoFiles,
            files.entries@.len() == 1 ==> (r matches Selection::Only(p) && p@
                == files.entries@[0].1@),
            files.entries@.len() > 1 ==> r == Selection::Ask,
    {
        if files.entries.len() == 0 {
            return Selection::NoFiles;
        }
        if files.entries.len() == 1 {
            return Selection::Only(files.entries[0].1.clone());
        }
        Selection::Ask
    }
}

/// A key pressed in the list of files.
#[derive(PartialEq, Eq, Debug, Clone, Copy)]
pub enum ListKey {
    Char(char),
    Down,
    Up,
    Enter,
    Esc,
    Other,
}

/// What a key does in the list of files.
#[derive(PartialEq, Eq, Debug, Clone, Copy)]
pub enum ListAction {
    /// Select the next file.
    Next,
    /// Select the previous file.
    Previous,
    /// Open the selected file.
    Choose,
    /// Leave without a file.
    Quit,
    /// Nothing.
    Ignore,
}

/// What `key` does in the list of files: `j` or down selects the next file, `k` or up the
/// previous one, enter opens the selected one, `q` or escape leaves; other keys do nothing.
pub open spec fn list_action_of(key: ListKey) -> ListAction {
    match key {
        ListKey::Char('j') | ListKey::Down => ListAction::Next,
        ListKey::Char('k') | ListKey::Up => ListAction::Previous,
        ListKey::Enter => ListAction::Choose,
        ListKey::Char('q') | ListKey::Esc => ListAction::Quit,
        _ => ListAction::Ignore,
    }
}

/// What `key` does in the list of files (see `list_action_of`).
pub fn list_action(key: ListKey) -> (r: ListAction)
    ensures
        r == list_action_of(key),
{
    match key {
        ListKey::Char('j') | ListKey::Down => ListAction::Next,
        ListKey::Char('k') | ListKey::Up => ListAction::Previous,
        ListKey::Enter => ListAction::Choose,
        ListKey::Char('q') | ListKey::Esc => ListAction::Quit,
        _ => ListAction::Ignore,
    }
}

} // verus!
