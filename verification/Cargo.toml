[package]
name = "sozu_pki_connector"
version = "0.1.0"
edition = "2021"
publish = false

[dependencies]
clap = { version = "=4.6.7", features = ["derive"] }
once_cell = "=1.21.4"
paw = "=1.0.0"
prometheus = "=0.14.0"
serde_json = "=1.0.154"
sozu-client = "=0.4.4"
sozu-command-lib = "=1.1.1"
thiserror = "=1.0.69"
tokio = { version = "=1.54.1", features = ["fs", "io-util", "macros", "net", "rt", "signal", "time"] }
tracing = "=0.1.44"
