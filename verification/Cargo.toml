[package]
name = "bigneon"
version = "0.1.0"
edition = "2021"
publish = false

[dependencies]
log = "0.4"
fern = "0.6"
chrono = "0.4"

[dev-dependencies]
serde_json = "1"
