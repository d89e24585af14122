[package]
name = "gravai"
version = "0.1.0"
edition = "2021"
publish = false

[dependencies]
serde = { version = "=1.0.229", features = ["derive"] }
serde_json = "=1.0.154"
dirs = "=7.0.0"
uuid = { version = "=1.29.0", features = ["v4"] }
chrono = "=0.4.45"
strsim = "=0.11.1"
thiserror = "=2.0.21"
tracing = "=0.1.44"
tracing-subscriber = { version = "=0.3.23", features = ["env-filter"] }
tracing-appender = "=0.2.5"
tokio = { version = "=1.54.1", features = ["rt", "rt-multi-thread", "sync", "time", "macros", "fs", "io-util"] }
rusqlite = { version = "=0.41.1", features = ["bundled"] }
hound = "=3.5.1"
reqwest = { version = "=0.13.5", default-features = false, features = ["json", "stream"] }
minijinja = { version = "=3.0.5", features = ["serde"] }
futures-util = "=0.3.34"
indicatif = "=0.18.6"
libc = "=0.2.191"
rubato = "=5.0.1"
webrtc-vad = "=0.4.0"
