[package]
name = "get_clocked"
version = "0.1.0"
edition = "2021"
publish = false

[dependencies]
indexmap = "2"
csv = "1"
calamine = "*"
rust_xlsxwriter = "*"
serde = { version = "1", features = ["derive"] }
serde_json = "1"
