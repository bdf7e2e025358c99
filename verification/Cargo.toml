[package]
name = "firedbg_rust_debugger"
version = "0.1.0"
edition = "2021"
publish = false

[dependencies]
anstyle = "1"
anyhow = "1"
dotenvy = "0.15"
indexmap = "2"
lazy_static = "1"
rustc-hash = "1"
sea-streamer = { version = "0.3", default-features = false }
serde = { version = "1", features = ["derive"] }
thiserror = "1"
toml = "0.8"

[dev-dependencies]
toml = "0.8"
