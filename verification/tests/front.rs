use ansible_inline_vaulter::ansible::Ansible;
use ansible_inline_vaulter::editor::{content_changed, edit_file, editor_command, get_editor, Editor, PrintedLine};
use ansible_inline_vaulter::key_files::KeyFiles;
use ansible_inline_vaulter::list_selector::{
    list_action, FileChoices, ListAction, ListKey, ListSelector, Selection, TuiListSelector,
};
use ansible_inline_vaulter::parser::{has_string_keys, strip_document_start, Parser};
use ansible_inline_vaulter::path_map::PathMap;
use ansible_inline_vaulter::project::{inventory_dir, is_ansible_cfg, is_properties_file};
use ansible_inline_vaulter::text::text_before_exec;
use ansible_inline_vaulter::properties_visitor::PropertiesVisitor;
use ansible_inline_vaulter::vault::{identity_entries_are_complete, Vault, VaultConfigError};
use ansible_inline_vaulter::vault_encryption::VaultEncryption;
use ansible_inline_vaulter::vault_secrets::{SecretsError, VaultSecrets};
use ansible_inline_vaulter::yaml::YamlValue;

fn editor(color: bool) -> Editor {
    let enc = VaultEncryption::new(
        VaultSecrets { no_id: None, ids: PathMap { pairs: vec![] } },
        KeyFiles { files: vec![] },
    );
    Editor::new(PropertiesVisitor::new(enc), None, color)
}

#[test]
fn editor_resolution_order() {
    let some = |s: &str| Some(s.to_string());
    assert_eq!("nvim", get_editor(some("nvim"), some("a"), some("b"), some("c")));
    assert_eq!("a", get_editor(some(""), some("a"), some("b"), some("c")));
    assert_eq!("b", get_editor(None, some("  "), some("b"), some("c")));
    assert_eq!("c", get_editor(None, None, some(""), some("c")));
    assert_eq!("vi", get_editor(None, None, None, some(" \t")));
    assert_eq!("code -w \"$1\"", editor_command("code -w"));
}

#[test]
fn printed_lines_highlight_vaulted_values() {
    let e = editor(true);
    assert_eq!(
        PrintedLine::Highlighted("pw: <vaulted>".to_string(), "secret".to_string()),
        e.print_line("pw: <vaulted>secret")
    );
    assert_eq!(
        PrintedLine::Highlighted("a <vaulted>".to_string(), "x <vaulted>y".to_string()),
        e.print_line("a <vaulted>x <vaulted>y")
    );
    assert_eq!(PrintedLine::Plain("user: me".to_string()), e.print_line("user: me"));
    assert_eq!(
        PrintedLine::Highlighted("pw: <vaulted>".to_string(), "".to_string()),
        e.print_line("pw: <vaulted>")
    );
    let plain = editor(false);
    assert_eq!(PrintedLine::Plain("pw: <vaulted>x".to_string()), plain.print_line("pw: <vaulted>x"));
}

#[test]
fn change_is_detected_by_digest() {
    assert!(!content_changed("a: 1\n", "a: 1\n"));
    assert!(content_changed("a: 1\n", "a: 2\n"));
}

#[test]
fn selection_without_asking() {
    let ls = TuiListSelector::new();
    let none = FileChoices { entries: vec![] };
    assert_eq!(Selection::NoFiles, ls.select_one(&none));
    let one = FileChoices { entries: vec![("all.yml".to_string(), "/p/all.yml".to_string())] };
    assert_eq!(Selection::Only("/p/all.yml".to_string()), ls.select_one(&one));
    let two = FileChoices {
        entries: vec![
            ("a.yml".to_string(), "/p/a.yml".to_string()),
            ("b.yml".to_string(), "/p/b.yml".to_string()),
        ],
    };
    assert_eq!(Selection::Ask, ls.select_one(&two));
    assert_eq!("/p/b.yml", TuiListSelector::chosen(&two, 1));
}

#[test]
fn properties_files_and_inventories() {
    assert!(is_properties_file("all.yml"));
    assert!(is_properties_file("ALL.YAML"));
    assert!(is_properties_file("x.Yml"));
    assert!(!is_properties_file("ansible.cfg"));
    assert!(!is_properties_file("ml"));
    assert_eq!("inventories/prod", inventory_dir("prod"));
}

#[test]
fn secrets_config_outcomes() {
    assert_eq!(SecretsError::MissingVaultFiles, VaultSecrets::from_config("[defaults]\n").err().unwrap());
    assert_eq!("Missing any vault file path", SecretsError::MissingVaultFiles.message());
    let v = VaultSecrets::from_config("vault_password_file = /etc/pw\nvault_identity_list = a@/k/a\n").unwrap();
    assert_eq!(Some("/etc/pw"), v.get_no_id());
    assert_eq!(Some("/k/a"), v.get_id("a"));
    assert_eq!(None, v.get_id("b"));
    let v = VaultSecrets::from_config("vault_identity_list = a@~/k/a\n").unwrap();
    assert_eq!(None, v.get_no_id());
    assert!(v.get_id("a").is_some());
    let e = VaultSecrets::from_path("/nope", false).err().unwrap();
    assert_eq!("File '/nope' does not exist", e.message());
    assert_eq!(Some("/pw"), VaultSecrets::from_path("/pw", true).unwrap().get_no_id());
}

#[test]
fn strict_vault_config_outcomes() {
    assert!(identity_entries_are_complete("vault_identity_list = a@b,c@d\n"));
    assert!(!identity_entries_are_complete("vault_identity_list = a@b,c\n"));
    assert!(identity_entries_are_complete("[defaults]\n"));
    assert_eq!(VaultConfigError::NoVaultFile, Vault::from_config("[defaults]\n").err().unwrap());
    assert_eq!("Could not find any vault file in config", VaultConfigError::NoVaultFile.message());
    let v = Vault::from_config("vault_identity_list = a@b\n").unwrap();
    assert_eq!(Some("b"), v.get_id("a"));
    assert_eq!(None, v.get_no_id());
    assert_eq!("File /x does not exist", Vault::from_path("/x", false).err().unwrap().message());
}

#[test]
fn ansible_command_outcomes() {
    let a = Ansible { vault: Vault::from_path("/pw", true).unwrap() };
    assert_eq!("--vault-password-file=/pw", a.password_file_argument());
    assert_eq!(Ok("plain".to_string()), Ansible::decrypt_outcome(Some(0), "plain"));
    assert_eq!(Err("Error 1 decrypting: oops".to_string()), Ansible::decrypt_outcome(Some(1), "oops"));
    assert_eq!(Err("Error -9 decrypting: ".to_string()), Ansible::decrypt_outcome(Some(-9), ""));
    assert_eq!(Ok("No exit code".to_string()), Ansible::decrypt_outcome(None, "x"));
}

#[test]
fn parser_gathers_dotted_keys() {
    assert_eq!("a: 1", strip_document_start("---\n a: 1 \n"));
    assert_eq!("a: 1\n", strip_document_start("a: 1\n"));
    let p = Parser { ansible: Ansible { vault: Vault::from_path("/pw", true).unwrap() } };
    let tagged = |t: &str| YamlValue::Tagged("!vault".to_string(), Box::new(YamlValue::String(t.to_string())));
    let inner = YamlValue::Mapping(vec![
        (YamlValue::String("x".to_string()), tagged("c1")),
        (YamlValue::String("y".to_string()), tagged("c2")),
    ]);
    let entries = vec![("top".to_string(), inner), ("z".to_string(), tagged("c3"))];
    let found = p.secrets(&entries);
    assert_eq!(
        vec![
            ("top.x".to_string(), "c1".to_string()),
            ("top.x.top.y".to_string(), "c2".to_string()),
            ("z".to_string(), "c3".to_string()),
        ],
        found
    );
}

#[test]
fn parser_needs_string_keys() {
    let s = |t: &str| YamlValue::String(t.to_string());
    let good = YamlValue::Mapping(vec![(s("a"), YamlValue::Mapping(vec![(s("b"), s("c"))]))]);
    assert!(has_string_keys(&good));
    let bad = YamlValue::Mapping(vec![(s("a"), YamlValue::Mapping(vec![(YamlValue::Bool(true), s("c"))]))]);
    assert!(!has_string_keys(&bad));
    let tagged_map = YamlValue::Tagged("!x".to_string(), Box::new(bad));
    assert!(!has_string_keys(&tagged_map));
    assert!(has_string_keys(&YamlValue::Sequence(vec![YamlValue::Mapping(vec![(YamlValue::Null, s("c"))])])));
}

#[test]
fn file_choices_keep_names_in_order() {
    let mut files = FileChoices::new();
    files.insert("host_vars/dev.yml".to_string(), "/p/host_vars/dev.yml".to_string());
    files.insert("group_vars/all.yml".to_string(), "/p/group_vars/all.yml".to_string());
    files.insert("group_vars/b.yml".to_string(), "/p/group_vars/b.yml".to_string());
    files.insert("group_vars/all.yml".to_string(), "/q/all.yml".to_string());
    let names: Vec<&str> = files.entries.iter().map(|(n, _)| n.as_str()).collect();
    assert_eq!(vec!["group_vars/all.yml", "group_vars/b.yml", "host_vars/dev.yml"], names);
    assert_eq!("/q/all.yml", files.entries[0].1);
    assert_eq!(Selection::Ask, TuiListSelector::new().select_one(&files));
    let mut sorted: Vec<String> = files.entries.iter().map(|(n, _)| n.clone()).collect();
    sorted.sort();
    assert_eq!(sorted, files.entries.iter().map(|(n, _)| n.clone()).collect::<Vec<_>>());
}

#[test]
fn order_of_text_is_that_of_strings() {
    let words = ["", "a", "ab", "b", "B", "é", "a\u{10000}", "ab\u{ffff}", "aa"];
    for x in words.iter() {
        for y in words.iter() {
            assert_eq!(x < y, text_before_exec(x, y), "{:?} {:?}", x, y);
        }
    }
}

#[test]
fn ansible_cfg_is_found_in_any_case() {
    assert!(is_ansible_cfg("ansible.cfg"));
    assert!(is_ansible_cfg("Ansible.CFG"));
    assert!(!is_ansible_cfg("ansible.cfg.bak"));
    assert!(!is_ansible_cfg("xansible.cfg"));
    assert!(!is_ansible_cfg("ansible_cfg"));
}

#[test]
fn edits_go_under_the_run_directory() {
    let comps = |xs: &[&str]| xs.iter().map(|x| x.to_string()).collect::<Vec<String>>();
    assert_eq!("/tmp/inline_vaulter/r1/group_vars/all.yml", edit_file("r1", &comps(&["/", "p", "group_vars", "all.yml"])));
    assert_eq!("/tmp/inline_vaulter/r1/all.yml", edit_file("r1", &comps(&["all.yml"])));
    assert_eq!("/all.yml", edit_file("r1", &comps(&["/", "all.yml"])));
    for p in ["/p/group_vars/all.yml", "all.yml", "/all.yml", "a/b/c"] {
        let mut expected = std::path::PathBuf::from("/tmp/inline_vaulter/r1");
        let path = std::path::Path::new(p);
        let rev: Vec<_> = path.iter().rev().take(2).collect();
        rev.iter().rev().for_each(|c| expected.push(c));
        let cs: Vec<String> = path.iter().map(|c| c.to_string_lossy().into_owned()).collect();
        assert_eq!(expected.display().to_string(), edit_file("r1", &cs));
    }
}

#[test]
fn keys_of_the_file_list() {
    assert_eq!(ListAction::Next, list_action(ListKey::Char('j')));
    assert_eq!(ListAction::Next, list_action(ListKey::Down));
    assert_eq!(ListAction::Previous, list_action(ListKey::Char('k')));
    assert_eq!(ListAction::Previous, list_action(ListKey::Up));
    assert_eq!(ListAction::Choose, list_action(ListKey::Enter));
    assert_eq!(ListAction::Quit, list_action(ListKey::Char('q')));
    assert_eq!(ListAction::Quit, list_action(ListKey::Esc));
    assert_eq!(ListAction::Ignore, list_action(ListKey::Char('x')));
    assert_eq!(ListAction::Ignore, list_action(ListKey::Other));
}
