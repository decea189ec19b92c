[package]
name = "ansible-inline-vaulter"
version = "0.1.0"
edition = "2021"
publish = false

[dependencies]
ansible-vault = "*"
anyhow = "*"
clap = { version = "4", features = ["derive"] }
clap-verbosity-flag = "*"
colored = "*"
crossterm = "*"
log = "*"
log4rs = "*"
md5 = "*"
ratatui = "*"
serde_yaml = "*"
serde_yaml_ng = "*"
shellexpand = "*"
uuid = { version = "*", features = ["v4"] }
walkdir = "*"

[dev-dependencies]
regex = "*"
