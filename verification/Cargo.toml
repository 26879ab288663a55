[package]
name = "rex"
version = "0.1.0"
edition = "2021"
publish = false

[dependencies]
regex = "*"
anyhow = "*"
chrono = "*"
clap = { version = "*", features = ["derive"] }
colored = "*"
crossbeam-channel = "*"
crossterm = "*"
indicatif = "*"
log = "*"
notify = "*"
same-file = "*"
shell-words = "*"
