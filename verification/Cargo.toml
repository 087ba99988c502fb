[package]
name = "cargo_edit"
version = "0.1.0"
edition = "2021"
publish = false

[dependencies]
anyhow = "1"
cargo_metadata = "*"
clap = { version = "4", features = ["derive"] }
termcolor = "1"
toml_edit = "*"
