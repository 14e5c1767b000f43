[package]
name = "aderyn"
version = "0.1.0"
edition = "2021"
publish = false

[dependencies]
semver = "1"
serde = { version = "1", features = ["derive"] }
serde_json = "1"
serde-sarif = "*"
toml = "*"
tokei = { version = "*", default-features = false }
foundry-compilers = { version = "*", default-features = false }
