[package]
name = "crux_cli"
version = "0.1.0"
edition = "2021"
publish = false

[dependencies]
anyhow = "1"
crux_core = "*"
guppy = "*"
lazy-regex = "3"
rustdoc-json = "*"
rustdoc-types = "*"
serde = { version = "1", features = ["derive"] }
serde_json = "1"
tokio = { version = "1", features = ["rt", "rt-multi-thread", "macros"] }
