//! The header line of an inline vault, and the vault identifier that it may carry.
//!
//! A vaulted value starts with a header line such as `$ANSIBLE_VAULT;1.2;AES256;myID`.
//! The identifier is what follows the last `;` of that line, provided the line holds
//! two more fields before it: in pattern form, `\$ANSIBLE_VAULT;.+;.+;(?<id>.*?)\n`,
//! where `.` is any character but a line feed and the leftmost such line wins.

use crate::text::{
    chars_of, find_from, lemma_find_from, lemma_rfind_in, lemma_rfind_shift, find_from_exec, occurs_at, occurs_at_exec,
    rfind_in, rfind_in_exec, trim, trim_str,
};
use vstd::prelude::*;

verus! {

broadcast use vstd::string::group_string_axioms;

/// The text that opens a vault header.
pub open spec fn header_marker() -> Seq<char> {
    "$ANSIBLE_VAULT;"@
}

/// The identifier declared by a header that starts at position `p` of `s`, if a complete
/// header (closed by a line feed) starts there.
pub open spec fn header_id_at(s: Seq<char>, p: int) -> Option<Seq<char>> {
    if !occurs_at(s, p, header_marker()) {
        None
    } else {
        let start = p + header_marker().len();
        match find_from(s, '\n', start) {
            None => None,
            Some(e) => {
                let line = s.subrange(start, e);
                match rfind_in(line, ';', 0, line.len() as int) {
                    None => None,
                    Some(j) => match rfind_in(line, ';', 1, j - 1) {
                        None => None,
                        Some(_) => Some(line.subrange(j + 1, line.len() as int)),
                    },
                }
            },
        }
    }
}

/// The identifier of the leftmost complete header at or after position `p` of `s`.
pub open spec fn header_id_from(s: Seq<char>, p: int) -> Option<Seq<char>>
    decreases s.len() - p,
{
    if p < 0 || p >= s.len() {
        None
    } else {
        match header_id_at(s, p) {
            Some(id) => Some(id),
            None => header_id_from(s, p + 1),
        }
    }
}

/// The vault identifier that `value` names: the identifier of its leftmost header, unless
/// that identifier is blank.
pub open spec fn vault_id_of(value: Seq<char>) -> Option<Seq<char>> {
    match header_id_from(value, 0) {
        Some(id) => if trim(id).len() == 0 {
            None
        } else {
            Some(id)
        },
        None => None,
    }
}

/// The identifier declared by a header starting at `p` of `v` (see `header_id_at`).
fn header_id_at_exec(v: &Vec<char>, marker: &Vec<char>, p: usize) -> (r: Option<(usize, usize)>)
    requires
        marker@ == header_marker(),
    ensures
        match header_id_at(v@, p as int) {
            Some(id) => r matches Some((a, b)) && a <= b <= v@.len() && v@.subrange(
                a as int,
                b as int,
            ) == id,
            None => r is None,
        },
{
    if !occurs_at_exec(v, p, marker) {
        return None;
    }
    assert(v@.len() == v.len());
    let start = p + marker.len();
    match find_from_exec(v, '\n', start) {
        None => None,
        Some(e) => {
            proof {
                lemma_find_from(v@, '\n', start as int);
            }
            let ghost line = v@.subrange(start as int, e as int);
            proof {
                lemma_rfind_shift(v@, line, ';', 0, line.len() as int, start as int);
                lemma_rfind_shift(v@, line, ';', 1, e - start, start as int);
            }
            match rfind_in_exec(v, ';', start, e) {
                None => {
                    proof {
                        lemma_rfind_in(v@, ';', start as int, e as int);
                        lemma_rfind_in(line, ';', 0, line.len() as int);
                    }
                    None
                },
                Some(j) => {
                    proof {
                        lemma_rfind_in(v@, ';', start as int, e as int);
                        lemma_rfind_in(line, ';', 0, line.len() as int);
                    }
                    assert(rfind_in(line, ';', 0, line.len() as int) == Some(j - start));
                    if j < start + 2 {
                        return None;
                    }
                    proof {
                        lemma_rfind_shift(v@, line, ';', 1, j - start - 1, start as int);
                    }
                    match rfind_in_exec(v, ';', start + 1, j - 1) {
                        None => {
                            proof {
                                lemma_rfind_in(v@, ';', start + 1, j - 1);
                                lemma_rfind_in(line, ';', 1, j - start - 1);
                            }
                            None
                        },
                        Some(i) => {
                            proof {
                                lemma_rfind_in(v@, ';', start + 1, j - 1);
                                lemma_rfind_in(line, ';', 1, j - start - 1);
                                assert(line[i - start] == ';');
                            }
                            assert(line.subrange(j - start + 1, line.len() as int) =~= v@.subrange(
                                j + 1,
                                e as int,
                            ));
                            Some((j + 1, e))
                        },
                    }
                },
            }
        },
    }
}

/// The vault identifier that `value` names (see `vault_id_of`).
pub fn extract_vault_id(value: &str) -> (r: Option<String>)
    ensures
        match vault_id_of(value@) {
            Some(id) => r matches Some(x) && x@ == id,
            None => r is None,
        },
{
    let v = chars_of(value);
    let marker = chars_of("$ANSIBLE_VAULT;");
    let mut p: usize = 0;
    while p < v.len()
        invariant
            v@ == value@,
            marker@ == header_marker(),
            header_id_from(value@, 0) == header_id_from(value@, p as int),
        decreases v.len() - p,
    {
        match header_id_at_exec(&v, &marker, p) {
            Some((a, b)) => {
                let capture = value.substring_char(a, b);
                if trim_str(capture).unicode_len() == 0 {
                    return None;
                }
                return Some(capture.to_owned());
            },
            None => {},
        }
        p = p + 1;
    }
    None
}

} // verus!
