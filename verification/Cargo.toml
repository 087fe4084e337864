[package]
name = "monfari"
version = "0.1.0"
edition = "2021"
publish = false

[dependencies]
ulid = "1"
proqnt = "*"
itertools = "0.12"
serde = { version = "1", features = ["derive"] }
serde_json = "1"
toml = "0.8"
eyre = "0.6"
color-eyre = "0.6"
tracing = "0.1"
tracing-error = "0.2"
tracing-subscriber = { version = "0.3", features = ["env-filter"] }
clap = { version = "4", features = ["derive"] }
rusqlite = "*"
rusqlite_migration = "*"
exemplar = "*"
tiny_http = "0.12"
ureq = { version = "2", features = ["json"] }
nix = { version = "0.27", features = ["socket"] }
reedline = "*"
nu-ansi-term = "*"
comfy-table = "7"
edit = "0.1"
