[package]
name = "doless"
version = "0.1.0"
edition = "2021"
publish = false

[dependencies]
proc-macro2 = "1"
quote = "1"
syn = { version = "2", features = ["full"] }
serde = "1"
async-trait = "0.1"

[dev-dependencies]
serde_json = "1"
