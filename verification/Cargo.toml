[package]
name = "convex_ffi"
version = "0.1.0"
edition = "2021"
publish = false

[dependencies]
anyhow = "=1.0.104"
camino = "1"
clap = { version = "4", features = ["derive"] }
convex = "=0.2.0"
futures = "0.3"
ordered-float = "4"
serde = { version = "1", features = ["derive"] }
serde_json = "1"
tokio = { version = "1", features = ["rt-multi-thread", "sync", "macros"] }
tracing = "0.1"
tracing-subscriber = "0.3"
uniffi = { version = "=0.24.3", features = ["tokio"] }
uniffi_bindgen = "=0.24.3"
xshell = "0.2"
