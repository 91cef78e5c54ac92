[package]
name = "roper"
version = "0.1.0"
edition = "2021"
publish = false

[dependencies]
byteorder = "=1.5.0"
hashbrown = "=0.9.1"
indexmap = { version = "=1.9.3", features = ["serde-1"] }
log = "=0.4.34"
non-dominated-sort = "=0.3.1"
rand = "=0.7.3"
serde = { version = "=1.0.229", features = ["derive"] }
streaming-stats = "=0.2.3"
toml = "=0.5.11"
