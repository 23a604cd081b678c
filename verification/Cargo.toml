[package]
name = "opdev"
version = "0.1.0"
edition = "2021"
publish = false

[dependencies]
anyhow = "1"
clap = { version = "4", features = ["derive"] }
jsonschema = { version = "*", default-features = false }
reqwest = { version = "0.12", default-features = false, features = ["blocking", "rustls-tls"] }
roxmltree = "*"
rustls = { version = "0.23", default-features = false, features = ["ring", "std"] }
semver = "1"
serde = { version = "1", features = ["derive"] }
serde_json = "1"
serde-saphyr = "*"
sha2 = "0.10"
tempfile = "3"
thiserror = "*"
