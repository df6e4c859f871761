[package]
name = "sempkg"
version = "0.1.0"
edition = "2021"
publish = false

[dependencies]
anyhow = "=1.0.104"
chrono = "=0.4.45"
clap = { version = "=4.6.7", features = ["derive", "env"] }
dirs = "=7.0.0"
flate2 = "=1.1.10"
glob = "=0.3.4"
hex = "=0.4.3"
llama-cpp-2 = "0.1"
reqwest = { version = "=0.12.28", default-features = false, features = ["blocking", "json", "rustls-tls"] }
rusqlite = { version = "=0.41.1", features = ["bundled"] }
serde = { version = "=1.0.229", features = ["derive"] }
serde_json = "=1.0.154"
sha2 = "=0.10.9"
tar = "=0.4.46"
tempfile = "=3.27.0"
thiserror = "=2.0.21"
tokio = { version = "=1.54.1", features = ["rt", "rt-multi-thread"] }
toml = "=0.8.23"
toml_edit = "=0.22.27"
walkdir = "=2.5.0"
which = "=8.0.6"
