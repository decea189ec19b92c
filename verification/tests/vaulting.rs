use ansible_inline_vaulter::collector::SecretsCollector;
use ansible_inline_vaulter::decrypt::{Decrypt, VaultDecrypt};
use ansible_inline_vaulter::key_files::{KeyFile, KeyFiles};
use ansible_inline_vaulter::path_map::PathMap;
use ansible_inline_vaulter::properties_visitor::PropertiesVisitor;
use ansible_inline_vaulter::vault_encryption::{open_vault, Encryption, EncryptionError, VaultEncryption};
use ansible_inline_vaulter::vault_secrets::VaultSecrets;
use ansible_inline_vaulter::walker::PropertiesWalker;
use ansible_inline_vaulter::yaml::YamlValue;

fn secrets() -> VaultSecrets {
    VaultSecrets {
        no_id: Some("/keys/default".to_string()),
        ids: PathMap {
            pairs: vec![
                ("dev".to_string(), "/keys/dev".to_string()),
                ("gone".to_string(), "/keys/gone".to_string()),
                ("bad".to_string(), "/keys/bad".to_string()),
            ],
        },
    }
}

fn keys() -> KeyFiles {
    KeyFiles {
        files: vec![
            KeyFile { path: "/keys/default".to_string(), is_file: true, contents: Ok("s3cret\n".to_string()) },
            KeyFile { path: "/keys/dev".to_string(), is_file: true, contents: Ok("  devpass ".to_string()) },
            KeyFile { path: "/keys/gone".to_string(), is_file: false, contents: Err("No such file".to_string()) },
            KeyFile { path: "/keys/bad".to_string(), is_file: true, contents: Err("Permission denied".to_string()) },
        ],
    }
}

fn encryption() -> VaultEncryption {
    VaultEncryption::new(secrets(), keys())
}

fn s(t: &str) -> YamlValue {
    YamlValue::String(t.to_string())
}

fn mapping(entries: Vec<(&str, YamlValue)>) -> YamlValue {
    YamlValue::Mapping(entries.into_iter().map(|(k, v)| (s(k), v)).collect())
}

fn text_of(v: &YamlValue) -> String {
    match v {
        YamlValue::String(t) => t.clone(),
        _ => panic!("not a string"),
    }
}

fn entry<'a>(v: &'a YamlValue, i: usize) -> &'a YamlValue {
    match v {
        YamlValue::Mapping(es) => &es[i].1,
        YamlValue::Sequence(xs) => &xs[i],
        _ => panic!("not a collection"),
    }
}

#[test]
fn vault_then_unvault_gives_back_trimmed_values() {
    let visitor = PropertiesVisitor::new(encryption());
    let doc = mapping(vec![
        ("user", s("me")),
        ("password", s("<vaulted>  pässword \n")),
        ("token", s("<vaulted><id:dev> tok ")),
        ("list", YamlValue::Sequence(vec![s("<vaulted>one"), YamlValue::Bool(true)])),
        ("n", YamlValue::Number("42".to_string())),
    ]);
    let vaulted = visitor.do_visit_vaulting(&doc).unwrap();
    match entry(&vaulted, 1) {
        YamlValue::Tagged(tag, inner) => {
            assert_eq!("vault", tag);
            assert!(text_of(inner).starts_with("$ANSIBLE_VAULT;1.1;AES256\n"));
        }
        _ => panic!("not vaulted"),
    }
    match entry(&vaulted, 2) {
        YamlValue::Tagged(_, inner) => {
            assert!(text_of(inner).starts_with("$ANSIBLE_VAULT;1.1;AES256;dev\n"));
        }
        _ => panic!("not vaulted"),
    }
    assert_eq!("me", text_of(entry(&vaulted, 0)));
    let back = visitor.do_visit_unvaulting(&vaulted).unwrap();
    assert_eq!("me", text_of(entry(&back, 0)));
    assert_eq!("<vaulted>pässword", text_of(entry(&back, 1)));
    assert_eq!("<vaulted><id:dev>tok", text_of(entry(&back, 2)));
    assert_eq!("<vaulted>one", text_of(entry(entry(&back, 3), 0)));
    assert!(matches!(entry(entry(&back, 3), 1), YamlValue::Bool(true)));
    assert!(matches!(entry(&back, 4), YamlValue::Number(n) if n == "42"));
}

#[test]
fn unvaulting_reads_indented_blocks_with_id() {
    let enc = encryption();
    let c = enc.encrypt_with_id("hello", "dev").unwrap();
    let indented: String = c.lines().map(|l| format!("  {}\n", l)).collect();
    let v = YamlValue::Tagged("!vault".to_string(), Box::new(s(&indented)));
    let visitor = PropertiesVisitor::new(enc);
    assert_eq!("<vaulted><id:dev>hello", text_of(&visitor.do_visit_unvaulting(&v).unwrap()));
}

#[test]
fn other_tags_and_keys_are_kept() {
    let visitor = PropertiesVisitor::new(encryption());
    let v = YamlValue::Tagged("!other".to_string(), Box::new(s("<vaulted>x")));
    match visitor.do_visit_vaulting(&v).unwrap() {
        YamlValue::Tagged(t, inner) => {
            assert_eq!("!other", t);
            assert_eq!("<vaulted>x", text_of(&inner));
        }
        _ => panic!(),
    }
    let v = YamlValue::Tagged("!other".to_string(), Box::new(s("garbage")));
    assert!(matches!(visitor.do_visit_unvaulting(&v).unwrap(), YamlValue::Tagged(..)));
}

#[test]
fn errors_name_their_cause() {
    let enc = encryption();
    assert!(matches!(enc.encrypt_with_id("x", "nope"), Err(EncryptionError::NoVaultFileWithId(id)) if id == "nope"));
    assert!(matches!(enc.encrypt_with_id("x", "gone"), Err(EncryptionError::VaultFileMissing(p)) if p == "/keys/gone"));
    assert!(matches!(enc.encrypt_with_id("x", "bad"), Err(EncryptionError::Unreadable(m)) if m == "Permission denied"));
    assert!(matches!(enc.decrypt_no_id(""), Err(EncryptionError::NoFirstLine)));
    let c = enc.encrypt_no_id("hi").unwrap();
    assert!(matches!(enc.decrypt_with_id(&c, "dev"), Err(EncryptionError::Cipher(_))));
    assert_eq!("hi", enc.decrypt_no_id(&c).unwrap());
    let no_default = VaultEncryption::new(
        VaultSecrets { no_id: None, ids: PathMap { pairs: vec![] } },
        keys(),
    );
    assert!(matches!(no_default.encrypt_no_id("x"), Err(EncryptionError::NoIdLessVaultFile)));
    let not_utf8 = ansible_vault::encrypt_vault(&[0xffu8, 0xfe][..], "s3cret").unwrap();
    let e = open_vault(&not_utf8, "s3cret").err().unwrap();
    assert!(matches!(e, EncryptionError::NotUtf8(_)));
    assert!(e.message().contains("invalid utf-8"), "{}", e.message());
    assert_eq!("No vault file with id 'nope'", enc.encrypt_with_id("x", "nope").err().unwrap().message());
    assert_eq!("Vault file '/keys/gone' does not exist.", enc.encrypt_with_id("x", "gone").err().unwrap().message());
    assert_eq!("No id-less vault file", no_default.encrypt_no_id("x").err().unwrap().message());
    assert_eq!("Can't iterate on fist line", enc.decrypt_no_id("").err().unwrap().message());
    assert!(!enc.decrypt_with_id(&c, "dev").err().unwrap().message().is_empty());
}

#[test]
fn first_failing_value_is_named() {
    let visitor = PropertiesVisitor::new(encryption());
    let doc = mapping(vec![
        ("a", s("<vaulted>fine")),
        ("b", YamlValue::Sequence(vec![s("<vaulted><id:gone>x"), s("<vaulted><id:nope>y")])),
        ("c", s("<vaulted><id:bad>z")),
    ]);
    let e = visitor.do_visit_vaulting(&doc).err().unwrap();
    assert_eq!("<vaulted><id:gone>x", e.value);
    assert!(matches!(e.error, EncryptionError::VaultFileMissing(_)));
}

#[test]
fn walker_vaults_what_has_a_secret() {
    let walker = PropertiesWalker::new(encryption());
    let doc = mapping(vec![("a", s("<vaulted> top ")), ("b", s("<vaulted>x$ANSIBLE_VAULT;1;2;nope\n"))]);
    let out = walker.visit_vaulting(&doc);
    match entry(&out, 0) {
        YamlValue::Tagged(tag, inner) => {
            assert_eq!("vault", tag);
            let t = text_of(inner);
            assert!(t.starts_with("$ANSIBLE_VAULT;1.1;AES256\n"));
            assert_eq!("top", open_vault(&t, "s3cret").unwrap());
        }
        _ => panic!("not vaulted"),
    }
    assert_eq!("<vaulted>x$ANSIBLE_VAULT;1;2;nope\n", text_of(entry(&out, 1)));
}

#[test]
fn vaulting_failure_names_the_value() {
    let visitor = PropertiesVisitor::new(encryption());
    let doc = mapping(vec![("a", s("<vaulted><id:nope>x"))]);
    let e = visitor.do_visit_vaulting(&doc).err().unwrap();
    assert_eq!("<vaulted><id:nope>x", e.value);
    assert!(matches!(e.error, EncryptionError::NoVaultFileWithId(_)));
    let bad = mapping(vec![("a", YamlValue::Tagged("vault".to_string(), Box::new(s("$ANSIBLE_VAULT;1.1;AES256\nzz\n"))))]);
    assert!(visitor.do_visit_unvaulting(&bad).is_err());
}

#[test]
fn header_with_id_is_rewritten_for_decryption() {
    let c = ansible_vault::encrypt_vault("payload".as_bytes(), "pw").unwrap();
    let with_id = c.replacen("AES256\n", "AES256;myid\n", 1);
    assert_eq!("payload", open_vault(&with_id, "pw").unwrap());
    assert_eq!("payload", open_vault(&c, "pw").unwrap());
}

#[test]
fn walker_keeps_what_it_cannot_change() {
    let walker = PropertiesWalker::new(encryption());
    let doc = mapping(vec![("a", s("<vaulted>abc")), ("b", s("<vaulted>$ANSIBLE_VAULT;1;2;nope\nx"))]);
    let vaulted = walker.visit_vaulting(&doc);
    assert!(matches!(entry(&vaulted, 0), YamlValue::Tagged(..)));
    assert_eq!("<vaulted>$ANSIBLE_VAULT;1;2;nope\nx", text_of(entry(&vaulted, 1)));
    let back = walker.visit_unvaulting(&vaulted);
    assert_eq!("<vaulted>abc", text_of(entry(&back, 0)));
}

#[test]
fn collector_decrypts_without_prefix() {
    let enc = encryption();
    let c = enc.encrypt_no_id("v1").unwrap();
    let collector = SecretsCollector::new(VaultDecrypt::new(secrets(), keys()));
    let doc = mapping(vec![
        ("a", YamlValue::Tagged("!vault".to_string(), Box::new(s(&c)))),
        ("b", YamlValue::Tagged("!vault".to_string(), Box::new(s("junk")))),
    ]);
    let out = collector.traverse_checked(&doc).unwrap();
    assert_eq!("v1", text_of(entry(&out, 0)));
    assert!(matches!(entry(&out, 1), YamlValue::Tagged(..)));
    let dec = VaultDecrypt::new(secrets(), keys());
    assert_eq!("v1", dec.decrypt_no_id(&c).unwrap());
}

#[test]
fn collector_refuses_non_text_secrets() {
    let not_utf8 = ansible_vault::encrypt_vault(&[0xffu8][..], "s3cret").unwrap();
    let collector = SecretsCollector::new(VaultDecrypt::new(secrets(), keys()));
    let doc = mapping(vec![("a", YamlValue::Tagged("!vault".to_string(), Box::new(s(&not_utf8))))]);
    assert!(collector.traverse_checked(&doc).is_none());
}

#[test]
fn saving_unchanged_clear_text_keeps_it() {
    let enc = encryption();
    let a = enc.encrypt_no_id("alpha").unwrap();
    let b = enc.encrypt_with_id("beta", "dev").unwrap();
    let doc = mapping(vec![
        ("a", YamlValue::Tagged("!vault".to_string(), Box::new(s(&a)))),
        ("b", YamlValue::Tagged("!vault".to_string(), Box::new(s(&b)))),
        ("c", s("plain")),
    ]);
    let visitor = PropertiesVisitor::new(enc);
    let clear = visitor.do_visit_unvaulting(&doc).unwrap();
    assert_eq!("<vaulted>alpha", text_of(entry(&clear, 0)));
    assert_eq!("<vaulted><id:dev>beta", text_of(entry(&clear, 1)));
    let saved = visitor.do_visit_vaulting(&clear).unwrap();
    let again = visitor.do_visit_unvaulting(&saved).unwrap();
    for i in 0..3 {
        assert_eq!(text_of(entry(&clear, i)), text_of(entry(&again, i)));
    }
}

#[test]
fn vaulting_twice_is_vaulting_once() {
    let visitor = PropertiesVisitor::new(encryption());
    let doc = mapping(vec![
        ("a", s("<vaulted>one")),
        ("b", YamlValue::Sequence(vec![s("<vaulted><id:dev>two"), s("plain")])),
        ("c", YamlValue::Null),
    ]);
    let once = visitor.do_visit_vaulting(&doc).unwrap();
    let twice = visitor.do_visit_vaulting(&once).unwrap();
    assert_eq!(format!("{:?}", once), format!("{:?}", twice));
}

fn odd_id_encryption() -> VaultEncryption {
    VaultEncryption::new(
        VaultSecrets {
            no_id: Some("/keys/default".to_string()),
            ids: PathMap {
                pairs: vec![
                    ("a;b".to_string(), "/keys/dev".to_string()),
                    (" ".to_string(), "/keys/dev".to_string()),
                    ("dev".to_string(), "/keys/dev".to_string()),
                ],
            },
        },
        keys(),
    )
}

#[test]
fn encrypted_with_an_id_decrypts_under_it() {
    let enc = odd_id_encryption();
    for id in ["a;b", " ", "dev"] {
        let c = enc.encrypt_with_id("clear", id).unwrap();
        assert_eq!("clear", enc.decrypt_with_id(c.trim(), id).unwrap());
    }
    let c = enc.encrypt_no_id(" text ").unwrap();
    assert_eq!(" text ", enc.decrypt_no_id(c.trim()).unwrap());
}
