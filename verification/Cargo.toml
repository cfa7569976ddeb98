[package]
name = "rpytest"
version = "0.1.0"
edition = "2021"
publish = false

[dependencies]
serde = { version = "1", features = ["derive"] }
serde_json = "1"
rmp-serde = "1"
sled = "0.34"
tokio = { version = "1", features = ["full"] }
nng = "1"
clap = { version = "4", features = ["derive"] }
anyhow = "1"
thiserror = "*"
tracing = "0.1"
tracing-subscriber = { version = "0.3", features = ["env-filter", "json"] }
uuid = { version = "1", features = ["v4"] }
parking_lot = "0.12"
async-trait = "0.1"
rustpython-parser = "*"
rustpython-ast = "*"
walkdir = "2"
rayon = "1"
ctrlc = "3"
notify = "*"
dirs = "5"
hex = "0.4"
sha2 = "0.10"
num_cpus = "1"
pyo3 = "*"
