[package]
name = "claude_settings_lsp"
version = "0.1.0"
edition = "2021"
publish = false

[dependencies]
serde_json = { version = "*", features = ["preserve_order"] }
dashmap = "*"
tokio = { version = "*", features = ["rt-multi-thread", "io-std", "macros"] }
tower-lsp = "*"
