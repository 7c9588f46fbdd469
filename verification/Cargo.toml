[package]
name = "lockjaw"
version = "0.1.0"
edition = "2021"
publish = false

[dependencies]
proc-macro2 = { version = "1", features = ["span-locations"] }
serde = { version = "1", features = ["derive"] }
syn = { version = "2", features = ["full", "visit"] }
toml = "0.8"
