[package]
name = "slio_git"
version = "0.1.0"
edition = "2021"
publish = false

[dependencies]
git2 = { version = "=0.20.4", default-features = false }
serde = { version = "=1.0.229", features = ["derive"] }
serde_json = "=1.0.154"
dirs-next = "=2.0.0"
thiserror = "=2.0.21"
tempfile = "=3.27.0"
fs2 = "0.4"
