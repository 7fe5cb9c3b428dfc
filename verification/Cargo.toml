[package]
name = "tokm"
version = "0.1.0"
edition = "2021"
publish = false

[dependencies]
tiktoken-rs = "=0.12.1"
tokenizers = { version = "=0.23.2", default-features = false, features = ["fancy-regex"] }
blake3 = "=1.8.7"
globset = "=0.4.21"
ignore = "=0.4.34"
path-clean = "=1.0.1"
directories = "=6.0.0"
fs2 = "=0.4.3"
rayon = "=1.12.0"
serde = { version = "=1.0.229", features = ["derive"] }
serde_json = "=1.0.154"
clap = { version = "=4.6.7", features = ["derive"] }
gix = { version = "=0.90.0", default-features = false, features = ["revision", "sha1"] }
