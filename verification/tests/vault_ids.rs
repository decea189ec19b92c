use ansible_inline_vaulter::collector;
use ansible_inline_vaulter::properties_visitor::{
    extract_vault_id_unvaulting, extract_vault_id_vaulting, IdProperty,
};
use ansible_inline_vaulter::walker;

#[test]
fn collector_test_match_vault_id() {
    let value = r#"
$ANSIBLE_VAULT;1.2;AES256;myID
123
"#;
    let act = collector::extract_vault_id(value).unwrap();
    assert_eq!("myID", act);
}

#[test]
fn properties_visitor_test_match_vault_id() {
    let value = r#"
$ANSIBLE_VAULT;1.2;AES256;myID
123
"#;
    let act = extract_vault_id_unvaulting(value).unwrap();
    assert_eq!("myID", act);
}

#[test]
fn walker_test_match_vault_id() {
    let value = r#"
$ANSIBLE_VAULT;1.2;AES256;myID
123
"#;
    let act = walker::extract_vault_id(value).unwrap();
    assert_eq!("myID", act);
}

#[test]
fn test_extract_vault_id_vaulting_match() {
    let value = "<id:someID>something";
    let act = extract_vault_id_vaulting(value);
    let exp = IdProperty {
        id: "someID",
        stripped: "something",
    };
    assert_eq!(Some(exp), act);
}

#[test]
fn test_extract_vault_id_vaulting_none() {
    let value = "something";
    let act = extract_vault_id_vaulting(value);
    assert_eq!(None, act);
}

#[test]
fn test_extract_vault_id_vaulting_incomplete() {
    let value = "<id:someID something";
    let act = extract_vault_id_vaulting(value);
    assert_eq!(None, act);
}

#[test]
fn test_extract_vault_id_vaulting_empty() {
    let value = "<id:> something";
    let act = extract_vault_id_vaulting(value);
    assert_eq!(None, act);
}

#[test]
fn test_extract_vault_id_vaulting_finds_first_diamond() {
    let value = "<id:someID> s>omething";
    let act = extract_vault_id_vaulting(value);
    let exp = IdProperty {
        id: "someID",
        stripped: " s>omething",
    };
    assert_eq!(Some(exp), act);
}
