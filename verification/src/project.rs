//! The layout of an Ansible project: where an inventory's properties files are, and which
//! files are properties files.

use crate::text::chars_of;
use vstd::prelude::*;

verus! {

broadcast use vstd::string::group_string_axioms;

/// `c` with an ASCII capital letter made small.
pub open spec fn ascii_lower(c: char) -> char {
    if 'A' <= c && c <= 'Z' {
        ((c as u32) + 32) as char
    } else {
        c
    }
}

/// The text `s`, lower-cased in ASCII, ends with `suffix`.
pub open spec fn lower_ends_with(s: Seq<char>, suffix: Seq<char>) -> bool {
    &&& suffix.len() <= s.len()
    &&& forall|i: int|
        0 <= i < suffix.len() ==> ascii_lower(#[trigger] s[s.len() - suffix.len() + i]) == suffix[i]
}

/// A file whose name, lower-cased in ASCII, ends with `yaml` or `yml`, is a properties file.
pub open spec fn is_properties_file_name(name: Seq<char>) -> bool {
    lower_ends_with(name, "yaml"@) || lower_ends_with(name, "yml"@)
}

/// `c` with an ASCII capital letter made small.
fn ascii_lower_char(c: char) -> (r: char)
    ensures
        r == ascii_lower(c),
{
    if 'A' <= c && c <= 'Z' {
        let u: u8 = (c as u32 + 32) as u8;
        assert(u as u32 == c as u32 + 32);
        u as char
    } else {
        c
    }
}

/// Whether `s`, lower-cased in ASCII, ends with `suffix`.
fn lower_ends_with_exec(s: &Vec<char>, suffix: &Vec<char>) -> (r: bool)
    ensures
        r == lower_ends_with(s@, suffix@),
{
    if suffix.len() > s.len() {
        return false;
    }
    let base = s.len() - suffix.len();
    let mut i: usize = 0;
    while i < suffix.len()
        invariant
            base + suffix@.len() == s@.len(),
            s@.len() == s.len(),
            suffix@.len() == suffix.len(),
            i <= suffix@.len(),
            forall|k: int| 0 <= k < i ==> ascii_lower(#[trigger] s@[base + k]) == suffix@[k],
        decreases suffix.len() - i,
    {
        if ascii_lower_char(s[base + i]) != suffix[i] {
            assert(ascii_lower(s@[s@.len() - suffix@.len() + i]) != suffix@[i as int]);
            return false;
        }
        i = i + 1;
    }
    assert forall|k: int| 0 <= k < suffix@.len() implies ascii_lower(
        #[trigger] s@[s@.len() - suffix@.len() + k],
    ) == suffix@[k] by {
        assert(s@.len() - suffix@.len() + k == base + k);
    }
    true
}

/// Whether a file named `name` is a properties file (see `is_properties_file_name`).
pub fn is_properties_file(name: &str) -> (r: bool)
    ensures
        r == is_properties_file_name(name@),
{
    let v = chars_of(name);
    lower_ends_with_exec(&v, &chars_of("yaml")) || lower_ends_with_exec(&v, &chars_of("yml"))
}

/// The name of an Ansible configuration file: `ansible.cfg`, in any case of its ASCII letters.
pub open spec fn is_ansible_cfg_name(name: Seq<char>) -> bool {
    name.len() == "ansible.cfg"@.len() && lower_ends_with(name, "ansible.cfg"@)
}

/// Whether a file named `name` is the Ansible configuration file (see `is_ansible_cfg_name`).
pub fn is_ansible_cfg(name: &str) -> (r: bool)
    ensures
        r == is_ansible_cfg_name(name@),
{
    let v = chars_of(name);
    let c = chars_of("ansible.cfg");
    v.len() == c.len() && lower_ends_with_exec(&v, &c)
}

/// The directory of the inventory `inventory_name`, relative to the Ansible directory.
pub fn inventory_dir(inventory_name: &str) -> (r: String)
    ensures
        r@ == "inventories/"@ + inventory_name@,
{
    let mut d = String::from_str("inventories/");
    d.append(inventory_name);
    d
}

} // verus!
