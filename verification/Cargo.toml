[package]
name = "nice"
version = "0.1.0"
edition = "2021"
publish = false

[dependencies]
rand = "0.8"
tonic = "0.9"
prost = "0.11"
tokio = { version = "1", features = ["full"] }
tower = { version = "0.4", features = ["discover"] }
flume = "0.11"
trust-dns-resolver = "0.23"
reqwest = { version = "0.11", default-features = false }
log = "0.4"
async-trait = "0.1"
libc = "0.2"
