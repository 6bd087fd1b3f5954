[package]
name = "git-snapshot"
version = "0.1.0"
edition = "2021"
publish = false

[dependencies]
anyhow = "=1.0.104"
dirs = "=7.0.0"
git2 = { version = "=0.21.0", default-features = false, features = ["cred"] }
humantime-serde = "=1.1.1"
log = "=0.4.34"
notify = "=8.2.0"
pretty_env_logger = "=0.5.0"
serde = { version = "=1.0.229", features = ["derive"] }
serde_json = "=1.0.154"
shellexpand = "=3.1.2"
structopt = "=0.3.26"
thiserror = "=1.0.69"
tokio = { version = "=1.54.1", features = ["rt-multi-thread", "macros", "sync", "time"] }

[dev-dependencies]
tempfile = "=3.27.0"
