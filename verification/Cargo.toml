[package]
name = "genesis_tool"
version = "0.1.0"
edition = "2021"
publish = false

[dependencies]
revm = "*"
alloy-primitives = "*"
alloy-sol-types = "*"
alloy-sol-macro = "*"
tiny-keccak = { version = "*", features = ["keccak", "sha3"] }
serde = { version = "*", features = ["derive"] }
serde_json = "*"
anyhow = "*"
clap = { version = "*", features = ["derive"] }
tokio = { version = "*", features = ["macros", "rt-multi-thread"] }
tracing = "*"
tracing-appender = "*"
tracing-subscriber = "*"
