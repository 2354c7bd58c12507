[package]
name = "einat"
version = "0.1.0"
edition = "2021"
publish = false

[dependencies]
anyhow = "=1.0.104"
bytemuck = { version = "=1.25.2", features = ["derive"] }
futures-util = "=0.3.34"
ipnet = { version = "=2.12.2", features = ["serde"] }
lexopt = "=0.3.2"
libbpf-rs = "=0.27.2"
prefix-trie = "=0.10.1"
serde = { version = "1", features = ["derive"] }
tokio = { version = "=1.54.1", features = ["rt", "signal", "macros", "time"] }
toml = "=1.1.8"
tracing = "=0.1.44"
tracing-subscriber = "=0.3.23"
