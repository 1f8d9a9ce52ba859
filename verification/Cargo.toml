[package]
name = "codex_web_search_mcp"
version = "2.3.0"
edition = "2021"
publish = false

[dependencies]
encoding_rs = "0.8"
regex = "1"
serde_json = "1"
ureq = { version = "2", features = ["json"] }
