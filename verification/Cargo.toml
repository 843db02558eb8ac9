[package]
name = "poke_escape_server"
version = "0.1.0"
edition = "2021"
publish = false

[dependencies]
semver = "*"
colored = "*"
structopt = "*"
serde = "*"
serde_derive = "*"
serde_json = "*"
toml = "*"
