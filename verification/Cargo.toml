[package]
name = "fbii"
version = "0.1.0"
edition = "2021"
publish = false

[dependencies]
unicode-width = "0.2"
unicode-normalization = "0.1"
encoding_rs = "0.8"
roxmltree = "0.20"
zip = { version = "9", default-features = false, features = ["deflate"] }
base64 = "0.22"
sha1 = "0.10"
reqwest = { version = "0.12", default-features = false, features = ["blocking", "rustls-tls"] }
dark-light = "1.1"
serde = { version = "1", features = ["derive"] }
toml = "0.8"
thiserror = "1"
clap = { version = "4.5", features = ["derive"] }
chrono = { version = "0.4", default-features = false, features = ["clock", "serde"] }
dirs = "5"
tokio = { version = "1", features = ["rt-multi-thread", "macros", "fs", "time"] }
futures = "0.3"
sqlx = { version = "0.8", default-features = false, features = ["runtime-tokio", "sqlite", "chrono"] }
crossterm = { version = "0.28", features = ["event-stream"] }
ratatui = "0.29"

[dev-dependencies]
tempfile = "3"
