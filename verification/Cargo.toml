[package]
name = "sbv2_core"
version = "0.1.0"
edition = "2021"
publish = false

[dependencies]
anyhow = "=1.0.104"
dotenvy = "=0.15.7"
env_logger = "=0.11.11"
hound = "=3.5.1"
jpreprocess = "=0.15.0"
ndarray = "=0.17.2"
num_cpus = "=1.17.0"
ort = { version = "=2.0.0-rc.15", default-features = false, features = ["std", "ndarray", "load-dynamic"] }
serde = { version = "=1.0.229", features = ["derive"] }
serde_json = "=1.0.154"
tar = "=0.4.46"
thiserror = "=2.0.21"
tokenizers = { version = "=0.23.2", default-features = false, features = ["onig"] }
zstd = "=0.14.3"
