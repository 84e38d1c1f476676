[package]
name = "lils"
version = "0.1.0"
edition = "2021"
publish = false

[dependencies]
crossterm = "*"
ignore = "*"
nix = { version = "*", features = ["fs", "user"] }
clap = { version = "*", features = ["cargo", "derive"] }
serde = { version = "*", features = ["derive"] }
toml = "*"
