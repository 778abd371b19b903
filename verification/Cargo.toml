[package]
name = "rocket_okapi"
version = "0.1.0"
edition = "2021"
publish = false

[dependencies]
rocket_http = "0.5"
schemars = "1"
serde = { version = "1", features = ["derive"] }
serde_json = "1"
syn = { version = "2", features = ["full"] }
quote = "1"
proc-macro2 = "1"
