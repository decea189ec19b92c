//! Settings of an `ansible.cfg` file, read as `NAME = VALUE` lines.
//!
//! A setting is found at the leftmost place where its name is followed by `=` or ` =`,
//! then by an optional space; its value is the rest of that line (in pattern form,
//! `NAME ?= ?(?<value>.*)` with `.` any character but a line feed).

use crate::text::{chars_of, find_from, find_from_exec, lemma_find_from, occurs_at, occurs_at_exec};
use vstd::prelude::*;

verus! {

broadcast use vstd::string::group_string_axioms;

/// The value of the setting `name` if its name starts at position `p` of `s`.
pub open spec fn setting_value_at(s: Seq<char>, p: int, name: Seq<char>) -> Option<Seq<char>> {
    if !occurs_at(s, p, name) {
        None
    } else {
        let q = p + name.len();
        let after_eq = if occurs_at(s, q, seq![' ', '=']) {
            Some(q + 2)
        } else if occurs_at(s, q, seq!['=']) {
            Some(q + 1)
        } else {
            None::<int>
        };
        match after_eq {
            None => None,
            Some(r) => {
                let start = if r < s.len() && s[r] == ' ' {
                    r + 1
                } else {
                    r
                };
                let end = match find_from(s, '\n', start) {
                    Some(e) => e,
                    None => s.len() as int,
                };
                Some(s.subrange(start, end))
            },
        }
    }
}

/// The value of the leftmost occurrence of the setting `name` at or after position `p`.
pub open spec fn setting_value_from(s: Seq<char>, p: int, name: Seq<char>) -> Option<Seq<char>>
    decreases s.len() - p,
{
    if p < 0 || p >= s.len() {
        None
    } else {
        match setting_value_at(s, p, name) {
            Some(v) => Some(v),
            None => setting_value_from(s, p + 1, name),
        }
    }
}

/// The value of the setting `name` in the configuration text `s`.
pub open spec fn setting_value(s: Seq<char>, name: Seq<char>) -> Option<Seq<char>> {
    setting_value_from(s, 0, name)
}

/// Finds the value of the setting `name` in `cfg` (see `setting_value`).
pub fn find_setting(cfg: &str, name: &str) -> (r: Option<String>)
    requires
        name@.len() > 0,
    ensures
        match setting_value(cfg@, name@) {
            Some(v) => r matches Some(x) && x@ == v,
            None => r is None,
        },
{
    let v = chars_of(cfg);
    let key = chars_of(name);
    let space_eq = chars_of(" =");
    let eq = chars_of("=");
    proof {
        reveal_strlit(" =");
        reveal_strlit("=");
        assert(space_eq@ =~= seq![' ', '=']);
        assert(eq@ =~= seq!['=']);
    }
    let mut p: usize = 0;
    while p < v.len()
        invariant
            v@ == cfg@,
            key@ == name@,
            space_eq@ == seq![' ', '='],
            eq@ == seq!['='],
            setting_value(cfg@, name@) == setting_value_from(cfg@, p as int, name@),
        decreases v.len() - p,
    {
        if occurs_at_exec(&v, p, &key) {
            assert(v@.len() == v.len());
            let q = p + key.len();
            let r: Option<usize> = if occurs_at_exec(&v, q, &space_eq) {
                Some(q + 2)
            } else if occurs_at_exec(&v, q, &eq) {
                Some(q + 1)
            } else {
                None
            };
            if let Some(r) = r {
                let start = if r < v.len() && v[r] == ' ' {
                    r + 1
                } else {
                    r
                };
                proof {
                    lemma_find_from(v@, '\n', start as int);
                }
                let end = match find_from_exec(&v, '\n', start) {
                    Some(e) => e,
                    None => v.len(),
                };
                return Some(cfg.substring_char(start, end).to_owned());
            }
        }
        p = p + 1;
    }
    None
}

} // verus!
