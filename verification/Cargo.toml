[package]
name = "campman"
version = "0.1.0"
edition = "2021"
publish = false

[dependencies]
many-to-many = "=0.1.7"
rand = "=0.8.8"
permutation = "=0.4.1"
toml = "=0.5.11"
anyhow = "=1.0.104"
thiserror = "=1.0.69"
serde = { version = "=1.0.229", features = ["derive"] }
rusqlite = { version = "=0.40.2", features = ["bundled"] }
rusqlite_migration = "=2.6.0"
tui = "=0.19.0"
crossterm = "=0.25.0"
argh = "=0.1.19"
pad = "=0.1.6"
itertools = "=0.15.0"
dirs = "=7.0.0"
once_cell = "=1.21.4"
iced = { version = "0.12", default-features = false }
iced_aw = { version = "0.9", default-features = false, features = ["tabs"] }
