[package]
name = "shortcut_release_helper"
version = "0.1.0"
edition = "2021"
publish = false

[dependencies]
ansi_term = "=0.12.1"
anyhow = "=1.0.104"
clap = { version = "=4.6.7", features = ["derive"] }
dotenvy = "=0.15.7"
futures = "=0.3.34"
git2 = { version = "=0.20.4", default-features = false }
governor = "=0.10.4"
minijinja = "=2.24.0"
regex = "=1.13.1"
scoped-tls = "=1.0.1"
serde = { version = "=1.0.229", features = ["derive"] }
tokio = { version = "=1.54.1", features = ["full"] }
tokio-stream = "=0.1.19"
toml = "=1.1.8"
tracing-subscriber = { version = "=0.3.23", features = ["env-filter"] }

[dev-dependencies]
fallible-iterator = "=0.2.0"
quirky_binder_support = "=0.1.0"
