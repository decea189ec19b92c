//! Showing and editing the clear text of a properties file: which editor to open, how to
//! highlight vaulted lines, and whether the text was changed.

use crate::properties_visitor::{vaulted_prefix, PropertiesVisitor};
use crate::text::{chars_of, find_text, find_text_exec, lemma_find_text, trim, trim_str};
use vstd::prelude::*;

verus! {

broadcast use vstd::string::group_string_axioms;

/// The editor to open: the one given on the command line, unless empty; else the first of
/// `ANSIBLE_INLINE_VAULTER_EDITOR`, `VISUAL` and `EDITOR` that is set and not blank; else `vi`.
pub open spec fn editor_choice(
    given: Option<Seq<char>>,
    own: Option<Seq<char>>,
    visual: Option<Seq<char>>,
    editor: Option<Seq<char>>,
) -> Seq<char> {
    if given matches Some(p) && p.len() > 0 {
        given->0
    } else if own matches Some(e) && trim(e).len() > 0 {
        own->0
    } else if visual matches Some(e) && trim(e).len() > 0 {
        visual->0
    } else if editor matches Some(e) && trim(e).len() > 0 {
        editor->0
    } else {
        "vi"@
    }
}

/// Law: the order in which the editor is chosen. A non-empty editor path given on the
/// command line wins; otherwise (no path, or an empty one, alike) the first of
/// `ANSIBLE_INLINE_VAULTER_EDITOR`, `VISUAL` and `EDITOR` that is set and not blank wins,
/// whatever the later ones hold; otherwise `vi`.
pub proof fn law_editor_order(
    given: Option<Seq<char>>,
    own: Option<Seq<char>>,
    visual: Option<Seq<char>>,
    editor: Option<Seq<char>>,
)
    ensures
        ({
            let path_given = given is Some && given->0.len() > 0;
            let own_set = own is Some && trim(own->0).len() > 0;
            let visual_set = visual is Some && trim(visual->0).len() > 0;
            let editor_set = editor is Some && trim(editor->0).len() > 0;
            let choice = editor_choice(given, own, visual, editor);
            &&& path_given ==> choice == given->0
            &&& !path_given && own_set ==> choice == own->0
            &&& !path_given && !own_set && visual_set ==> choice == visual->0
            &&& !path_given && !own_set && !visual_set && editor_set ==> choice == editor->0
            &&& !path_given && !own_set && !visual_set && !editor_set ==> choice == "vi"@
        }),
        editor_choice(None, own, visual, editor) == editor_choice(
            Some(Seq::<char>::empty()),
            own,
            visual,
            editor,
        ),
{
}

/// The text view of an optional string.
pub open spec fn opt_view(o: Option<String>) -> Option<Seq<char>> {
    match o {
        Some(s) => Some(s@),
        None => None,
    }
}

/// Whether an environment setting is set and not blank.
fn set_and_not_blank(v: &Option<String>) -> (r: bool)
    ensures
        r == (opt_view(*v) matches Some(e) && trim(e).len() > 0),
{
    match v {
        Some(e) => trim_str(e.as_str()).unicode_len() != 0,
        None => false,
    }
}

/// The editor to open (see `editor_choice`); `own`, `visual` and `editor` are the values of
/// `ANSIBLE_INLINE_VAULTER_EDITOR`, `VISUAL` and `EDITOR`, where set.
pub fn get_editor(
    editor_path: Option<String>,
    own: Option<String>,
    visual: Option<String>,
    editor: Option<String>,
) -> (r: String)
    ensures
        r@ == editor_choice(opt_view(editor_path), opt_view(own), opt_view(visual), opt_view(editor)),
{
    if let Some(path) = &editor_path {
        if path.as_str().unicode_len() != 0 {
            return path.clone();
        }
    }
    if set_and_not_blank(&own) {
        return own.unwrap();
    }
    if set_and_not_blank(&visual) {
        return visual.unwrap();
    }
    if set_and_not_blank(&editor) {
        return editor.unwrap();
    }
    proof {
        reveal_strlit("vi");
    }
    String::from_str("vi")
}

/// The shell command that opens the file given as its first argument in `editor`.
pub fn editor_command(editor: &str) -> (r: String)
    ensures
        r@ == editor@ + " \"$1\""@,
{
    let mut c = String::from_str(editor);
    c.append(" \"$1\"");
    c
}

/// A line of the clear text as it is printed: plain, or in two parts of which the second is
/// highlighted; the two parts together are the line.
#[derive(PartialEq, Eq, Debug)]
pub enum PrintedLine {
    Plain(String),
    Highlighted(String, String),
}

/// Where the highlighted part of `line` starts, if it holds `<vaulted>`: right after the
/// first `<vaulted>`; it runs to the end of the line.
pub open spec fn highlight(line: Seq<char>) -> Option<int> {
    match find_text(line, vaulted_prefix(), 0) {
        None => None,
        Some(f) => Some(f + vaulted_prefix().len()),
    }
}

/// The clear-text view and editing of a properties file.
pub struct Editor {
    pub visitor: PropertiesVisitor,
    pub editor_path: Option<String>,
    pub color: bool,
}

impl Editor {
    /// An editor that unvaults and vaults with `visitor`, opens `editor_path` (if given) and
    /// highlights vaulted values when `color` is set.
    pub fn new(visitor: PropertiesVisitor, editor_path: Option<String>, color: bool) -> (r: Editor)
        ensures
            r.visitor == visitor,
            r.editor_path == editor_path,
            r.color == color,
    {
        Editor { visitor, editor_path, color }
    }

    /// How `line` is printed: with colour, a line that holds `<vaulted>` is split after the
    /// first `<vaulted>`, and the rest of the line is highlighted; nothing is left out.
    pub fn print_line(&self, line: &str) -> (r: PrintedLine)
        ensures
            match r {
                PrintedLine::Plain(s) => !(self.color && highlight(line@) is Some) && s@ == line@,
                PrintedLine::Highlighted(a, b) => self.color && (highlight(line@) matches Some(x)
                    && a@ == line@.take(x) && b@ == line@.skip(x)),
            },
    {
        if !self.color {
            return PrintedLine::Plain(line.to_owned());
        }
        let v = chars_of(line);
        let p = chars_of("<vaulted>");
        proof {
            reveal_strlit("<vaulted>");
            assert(vaulted_prefix().len() == 9);
            lemma_find_text(line@, vaulted_prefix(), 0);
        }
        match find_text_exec(&v, &p, 0) {
            None => PrintedLine::Plain(line.to_owned()),
            Some(f) => {
                assert(v@.len() == v.len());
                let a = f + 9;
                let first = line.substring_char(0, a).to_owned();
                let rest = line.substring_char(a, v.len()).to_owned();
                assert(first@ =~= line@.take(a as int));
                assert(rest@ =~= line@.skip(a as int));
                PrintedLine::Highlighted(first, rest)
            },
        }
    }
}

/// `base` with the path component `comp` added as `PathBuf::push` adds it on Unix: a
/// component that starts at the root replaces the path; else a `/` separates the two unless
/// `base` is empty or ends with one.
pub open spec fn push_component(base: Seq<char>, comp: Seq<char>) -> Seq<char> {
    if comp.len() > 0 && comp[0] == '/' {
        comp
    } else if base.len() > 0 && base.last() != '/' {
        base + seq!['/'] + comp
    } else {
        base + comp
    }
}

/// `base` with the components `comps` added in order.
pub open spec fn push_components(base: Seq<char>, comps: Seq<Seq<char>>) -> Seq<char>
    decreases comps.len(),
{
    if comps.len() == 0 {
        base
    } else {
        push_component(push_components(base, comps.drop_last()), comps.last())
    }
}

/// The file that an edit is written to: under `/tmp/inline_vaulter/` and the name `run`,
/// the last two components of the edited file's path (`comps`), or all of them when there
/// are fewer.
pub open spec fn edit_file_path(run: Seq<char>, comps: Seq<Seq<char>>) -> Seq<char> {
    let start = if comps.len() >= 2 { comps.len() - 2 } else { 0 };
    push_components("/tmp/inline_vaulter/"@ + run, comps.skip(start))
}

/// `base` with the component `comp` added (see `push_component`).
fn push_component_exec(base: String, comp: &str) -> (r: String)
    ensures
        r@ == push_component(base@, comp@),
{
    let c = chars_of(comp);
    if c.len() > 0 && c[0] == '/' {
        return comp.to_owned();
    }
    let b = chars_of(base.as_str());
    let mut out = base;
    if b.len() > 0 && b[b.len() - 1] != '/' {
        out.append("/");
        proof {
            reveal_strlit("/");
        }
    }
    out.append(comp);
    out
}

/// The file that an edit is written to (see `edit_file_path`); `comps` are the components of
/// the edited file's path and `run` names this run.
pub fn edit_file(run: &str, comps: &Vec<String>) -> (r: String)
    ensures
        r@ == edit_file_path(run@, comps@.map_values(|c: String| c@)),
{
    let ghost cs = comps@.map_values(|c: String| c@);
    let start: usize = if comps.len() >= 2 { comps.len() - 2 } else { 0 };
    let mut out = String::from_str("/tmp/inline_vaulter/");
    out.append(run);
    proof {
        reveal_strlit("/tmp/inline_vaulter/");
    }
    let ghost base = out@;
    let mut i: usize = start;
    assert(cs.skip(start as int).take(0) =~= Seq::<Seq<char>>::empty());
    while i < comps.len()
        invariant
            start <= i <= comps@.len(),
            cs == comps@.map_values(|c: String| c@),
            start == (if comps@.len() >= 2 { comps@.len() - 2 } else { 0 }),
            base == "/tmp/inline_vaulter/"@ + run@,
            out@ == push_components(base, cs.skip(start as int).take(i - start)),
        decreases comps.len() - i,
    {
        let ghost prev = cs.skip(start as int).take(i - start);
        out = push_component_exec(out, comps[i].as_str());
        proof {
            let next = cs.skip(start as int).take(i + 1 - start);
            assert(next.drop_last() =~= prev);
            assert(next.last() == comps@[i as int]@);
        }
        i = i + 1;
    }
    assert(cs.skip(start as int).take(i - start) =~= cs.skip(start as int));
    out
}

/// The MD5 digest of the UTF-8 bytes of a text: what `md5::compute` gives.
pub uninterp spec fn md5_digest(text: Seq<char>) -> Seq<u8>;

/// The MD5 digest of the UTF-8 bytes of `text`, by `md5::compute`.
///
/// Trusted: the digest is the one that `md5_digest` names for the text.
#[verifier::external_body]
fn md5_of(text: &str) -> (r: Vec<u8>)
    ensures
        r@ == md5_digest(text@),
{
    md5::compute(text.as_bytes()).0.to_vec()
}

/// Whether the edited text differs from the text that was opened, by their MD5 digests.
pub fn content_changed(starting: &str, modified: &str) -> (r: bool)
    ensures
        r == (md5_digest(starting@) != md5_digest(modified@)),
{
    let a = md5_of(starting);
    let b = md5_of(modified);
    assert(a@.len() == a.len() && b@.len() == b.len());
    if a.len() != b.len() {
        return true;
    }
    let mut i: usize = 0;
    while i < a.len()
        invariant
            a@ == md5_digest(starting@),
            b@ == md5_digest(modified@),
            a@.len() == b@.len(),
            i <= a@.len(),
            forall|k: int| 0 <= k < i ==> a@[k] == b@[k],
        decreases a.len() - i,
    {
        if a[i] != b[i] {
            assert(a@[i as int] != b@[i as int]);
            return true;
        }
        i = i + 1;
    }
    assert(a@ =~= b@);
    false
}

} // verus!
