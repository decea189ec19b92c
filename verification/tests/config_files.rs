use std::collections::HashMap;

use ansible_inline_vaulter::path_map::PathMap;
use ansible_inline_vaulter::vault;
use ansible_inline_vaulter::vault_secrets::{parse_ids, parse_no_id, VaultSecrets};

fn as_hash_map(m: PathMap) -> HashMap<String, String> {
    m.pairs.into_iter().collect()
}

#[test]
fn vault_test_no_id_parse() {
    let cfg = r#"
[ssh_connection]
pipelining = True
retries = 2

[defaults]
vault_password_file = ~/.vault/wasd
"#;
    let exp = String::from("~/.vault/wasd");

    let act = vault::parse_no_id(cfg);

    assert_eq!(exp, act.unwrap());
}

#[test]
fn vault_test_no_id_missing_parse() {
    let cfg = r#"
[ssh_connection]
pipelining = True
retries = 2

[defaults]

"#;
    let act = vault::parse_no_id(cfg);

    assert!(act.is_none())
}

#[test]
fn vault_test_ids_parse() {
    let cfg = r#"
[ssh_connection]
pipelining = True
retries = 2

[defaults]
vault_identity_list = asd@~/.vault/asd,qwerty@~/.vault/qwerty
"#;
    let exp = HashMap::from([
        (String::from("asd"), String::from("~/.vault/asd")),
        (String::from("qwerty"), String::from("~/.vault/qwerty"))
    ]);

    let act = vault::parse_ids(cfg);

    assert_eq!(exp, as_hash_map(act.unwrap()));
}

#[test]
fn vault_test_ids_missing_parse() {
    let cfg = r#"
[ssh_connection]
pipelining = True
retries = 2

[defaults]
"#;

    let act = vault::parse_ids(cfg);

    assert!(act.is_none())
}

#[test]
fn vault_secrets_test_no_id_parse() {
    let cfg = r#"
[ssh_connection]
pipelining = True
retries = 2

[defaults]
vault_password_file = ~/.vault/wasd
"#;
    let exp = String::from("~/.vault/wasd");

    let act = parse_no_id(cfg);

    assert_eq!(exp, act.unwrap());
}

#[test]
fn vault_secrets_test_no_id_missing_parse() {
    let cfg = r#"
[ssh_connection]
pipelining = True
retries = 2

[defaults]

"#;
    let act = parse_no_id(cfg);

    assert!(act.is_none())
}

#[test]
fn vault_secrets_test_ids_parse() {
    let cfg = r#"
[ssh_connection]
pipelining = True
retries = 2

[defaults]
vault_identity_list = asd@~/.vault/asd,qwerty@~/.vault/qwerty
"#;
    let exp = HashMap::from([
        (String::from("asd"), String::from("~/.vault/asd")),
        (String::from("qwerty"), String::from("~/.vault/qwerty")),
    ]);

    let act = parse_ids(cfg);

    assert_eq!(exp, as_hash_map(act));
}

#[test]
fn test_ids_malformed() {
    let cfg = r#"
[ssh_connection]
pipelining = True
retries = 2

[defaults]
vault_identity_list = asd
"#;

    let act = parse_ids(cfg);

    assert!(act.is_empty());
}

#[test]
fn test_ids_split_once() {
    let cfg = r#"
[ssh_connection]
pipelining = True
retries = 2

[defaults]
vault_identity_list = asd@~/.vault/@asd
"#;
    let exp = HashMap::from([
        (String::from("asd"), String::from("~/.vault/@asd")),
    ]);

    let act = parse_ids(cfg);

    assert_eq!(exp, as_hash_map(act));
}

#[test]
fn vault_secrets_test_ids_missing_parse() {
    let cfg = r#"
[ssh_connection]
pipelining = True
retries = 2

[defaults]
"#;

    let act = parse_ids(cfg);

    assert!(act.is_empty())
}

#[test]
fn home_is_expanded_in_config_paths() {
    let v = VaultSecrets::from_config("vault_password_file = ~/.vault/x\nvault_identity_list = a@~/k\n").unwrap();
    let p = v.get_no_id().unwrap();
    assert!(!p.starts_with('~') && p.ends_with("/.vault/x"), "{}", p);
    let k = v.get_id("a").unwrap();
    assert!(!k.starts_with('~') && k.ends_with("/k"), "{}", k);
    let w = VaultSecrets::from_config("vault_password_file = ~other/x\n").unwrap();
    assert_eq!(Some("~other/x"), w.get_no_id());
}
