[package]
name = "slate"
version = "0.1.0"
edition = "2021"
publish = false

[dependencies]
anyhow = "1"
bincode = "1"
bson = "2"
clap = { version = "4", features = ["derive"] }
demand = "1"
env_logger = "0.11"
erased-serde = "0.4"
flexbuffers = "2"
log = "0.4"
postcard = { version = "1", features = ["alloc"] }
regex = "1"
ron = "0.8"
serde = { version = "1", features = ["derive"] }
serde_cbor = "0.11"
serde_ini = "0.2"
serde_json = "1"
serde-pickle = "1"
serde_yaml = "0.9"
tempfile = "3"
tera = "1"
toml = "0.8"
