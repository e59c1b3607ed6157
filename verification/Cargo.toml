[package]
name = "hip_limiter"
version = "0.1.0"
edition = "2021"
publish = false

[dependencies]
anyhow = "1"
ctor = "0.2"
dashmap = "6"
error-stack = "0.6"
humantime = "2"
libc = "0.2"
libloading = "0.8"
once_cell = "1"
reqwest = { version = "0.12", default-features = false, features = ["blocking", "json"] }
serde = { version = "1", features = ["derive"] }
serde_json = "1"
shared_memory = "*"
thiserror = "2"
tracing = "0.1"
tracing-appender = "0.2"
tracing-subscriber = { version = "0.3", features = ["env-filter"] }
