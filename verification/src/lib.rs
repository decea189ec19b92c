//! View and edit the inline-vaulted secrets of Ansible YAML properties.

pub mod text;
pub mod vault_header;
pub mod ansible_cfg;
pub mod path_map;
pub mod vault_secrets;
pub mod vault;
pub mod yaml;
pub mod vault_crypto;
pub mod key_files;
pub mod vault_encryption;
pub mod properties_visitor;
pub mod round_trip;
pub mod walker;
pub mod decrypt;
pub mod collector;
pub mod editor;
pub mod list_selector;
pub mod project;
pub mod ansible;
pub mod parser;
