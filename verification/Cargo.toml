[package]
name = "rustic_server"
version = "0.1.0"
edition = "2021"
publish = false

[dependencies]
abscissa_core = "=0.7.0"
axum = "=0.7.9"
base64 = "=0.22.1"
clap = { version = "=4.6.7", features = ["derive"] }
serde = { version = "=1.0.229", features = ["derive"] }
sha2 = "=0.10.9"
tide = { version = "=0.16.0", default-features = false, features = ["logger"] }
tokio = { version = "=1.54.1", features = ["rt-multi-thread", "net", "macros"] }
tracing = "=0.1.44"
