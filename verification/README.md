# ansible-inline-vaulter

View or edit the inline-vaulted secrets of Ansible YAML properties. A vaulted value is
shown as `<vaulted>[<id:someId>]clear text`; when an edited file is saved, every value with
that prefix is encrypted again, with the password file of its vault identifier (from
`vault_identity_list` in `ansible.cfg`) or with `vault_password_file`.

## Layout

- `src/` is the library, verified with Verus:
  - `text.rs`: characters, trimming, searching and splitting of text, with their specs;
  - `vault_header.rs`, `ansible_cfg.rs`: the grammar of a vault header line and of a
    setting line of `ansible.cfg`;
  - `path_map.rs`, `vault_secrets.rs`, `vault.rs`: the vault password files that
    `ansible.cfg` or the command line names;
  - `vault_crypto.rs`: the calls into the `ansible_vault` crate and what is trusted of them;
  - `key_files.rs`, `vault_encryption.rs`, `decrypt.rs`: secrets, encryption and decryption;
  - `yaml.rs`: YAML values and their model;
  - `properties_visitor.rs`, `walker.rs`, `collector.rs`, `parser.rs`: walks over YAML
    properties that vault, unvault, collect or list their secrets;
  - `round_trip.rs`: the proofs that vaulting and unvaulting undo each other;
  - `editor.rs`, `list_selector.rs`, `project.rs`, `ansible.rs`: the decisions of the
    command (which editor, how a line is printed, whether an edit changed the text, which
    file to open, how `ansible-vault` answered).
- `app/` is the command itself: arguments, files, YAML reading and writing, the terminal
  list, the editor process.
- `tests/` runs the library on concrete values.
