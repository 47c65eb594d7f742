[package]
name = "markharness"
version = "0.1.0"
edition = "2021"
publish = false

[dependencies]
serde = { version = "1", features = ["derive"] }
serde_json = "1"
serde_yaml_ng = "*"
sha1 = "*"
tempfile = "3"
toml = "*"
ulid = "1"
wana_kana = "*"
