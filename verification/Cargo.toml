[package]
name = "pactrail"
version = "0.8.0"
edition = "2021"
publish = false

[dependencies]
async-trait = "0.1"
base64 = "0.22"
blake3 = { version = "1", features = ["pure"] }
futures-util = "0.3"
httpdate = "1"
ignore = "0.4"
reqwest = { version = "0.12", default-features = false, features = ["json", "stream"] }
rusqlite = { version = "0.37", features = ["bundled"] }
schemars = "1"
secrecy = "0.10"
serde = { version = "1", features = ["derive"] }
serde_json = "1"
tempfile = "3"
thiserror = "2"
time = { version = "0.3", features = ["formatting", "parsing", "macros"] }
tokio = { version = "1", features = ["rt", "time", "process", "io-util", "macros"] }
tokio-util = "0.7"
tracing = "0.1"
zstd = "0.13"
