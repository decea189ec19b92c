use ansible_inline_vaulter::ansible_cfg::find_setting;
use ansible_inline_vaulter::text::{decimal_text, is_whitespace_char, trim_str};
use ansible_inline_vaulter::vault_header::extract_vault_id;
use ansible_inline_vaulter::vault_secrets::parse_identity_list;
use regex::Regex;

/// A small deterministic generator of test texts.
struct Gen(u64);

impl Gen {
    fn next(&mut self) -> u64 {
        self.0 = self.0.wrapping_mul(6364136223846793005).wrapping_add(1442695040888963407);
        self.0 >> 33
    }

    fn text(&mut self, pieces: &[&str], n: usize) -> String {
        let len = (self.next() as usize) % n;
        let mut s = String::new();
        for _ in 0..len {
            s.push_str(pieces[(self.next() as usize) % pieces.len()]);
        }
        s
    }
}

#[test]
fn whitespace_matches_std() {
    for u in 0u32..=0x10FFFF {
        if let Some(c) = char::from_u32(u) {
            assert_eq!(c.is_whitespace(), is_whitespace_char(c), "{:x}", u);
        }
    }
}

#[test]
fn trim_matches_std() {
    let mut g = Gen(7);
    let pieces = [" ", "\t", "\n", "a", "\u{3000}", "b c", "\u{85}", "\r"];
    for _ in 0..2000 {
        let s = g.text(&pieces, 8);
        assert_eq!(s.trim(), trim_str(&s));
    }
}

#[test]
fn header_id_matches_pattern() {
    let re = Regex::new(r"\$ANSIBLE_VAULT;.+;.+;(?<id>.*?)\n").unwrap();
    let expected = |value: &str| -> Option<String> {
        let capture = re.captures(value)?.name("id").map(|m| m.as_str())?;
        if capture.trim().is_empty() {
            return None;
        }
        Some(capture.to_owned())
    };
    let mut g = Gen(11);
    let pieces = ["$ANSIBLE_VAULT;", ";", "\n", "1.1", "AES256", " ", "x", "$", "id", ";;"];
    for _ in 0..20000 {
        let s = g.text(&pieces, 12);
        assert_eq!(expected(&s), extract_vault_id(&s), "{:?}", s);
    }
}

#[test]
fn header_id_examples() {
    assert_eq!(
        Some("dev".to_string()),
        extract_vault_id("$ANSIBLE_VAULT;1.1;AES256;dev\n3031\n")
    );
    assert_eq!(None, extract_vault_id("$ANSIBLE_VAULT;1.1;AES256\n3031\n"));
    assert_eq!(None, extract_vault_id("$ANSIBLE_VAULT;1.1;AES256;  \n3031\n"));
    assert_eq!(None, extract_vault_id("$ANSIBLE_VAULT;1.1;AES256;dev"));
    assert_eq!(
        Some("c".to_string()),
        extract_vault_id("$ANSIBLE_VAULT;a;b;c\n")
    );
}

#[test]
fn setting_matches_pattern() {
    let re = Regex::new(r"vault_password_file ?= ?(?<file>.*)").unwrap();
    let mut g = Gen(3);
    let pieces = ["vault_password_file", " ", "=", "\n", "x", "~/.v", "#", "  ="];
    for _ in 0..20000 {
        let s = g.text(&pieces, 10);
        let expected = re
            .captures(&s)
            .and_then(|c| c.name("file").map(|m| m.as_str().to_owned()));
        assert_eq!(expected, find_setting(&s, "vault_password_file"), "{:?}", s);
    }
}

#[test]
fn identity_list_matches_split() {
    let mut g = Gen(5);
    let pieces = ["a", "@", ",", "~/.v/", "b", "@@"];
    for _ in 0..5000 {
        let s = g.text(&pieces, 10);
        let expected: Vec<(String, String)> = s
            .split(',')
            .filter_map(|e| e.split_once('@'))
            .map(|(l, p)| (l.to_owned(), p.to_owned()))
            .collect();
        assert_eq!(expected, parse_identity_list(&s), "{:?}", s);
    }
}

#[test]
fn decimal_matches_std() {
    for n in [0i64, 7, 10, 42, -1, -10, 255, i64::MAX, i64::MIN, 1234567890] {
        assert_eq!(n.to_string(), decimal_text(n));
    }
}
