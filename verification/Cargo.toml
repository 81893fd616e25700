[package]
name = "ejlv_cli"
version = "0.1.0"
edition = "2021"
publish = false

[dependencies]
clap = { version = "=4.6.7", features = ["derive"] }
ej-config = "=0.3.0"
ej-dispatcher-sdk = "=0.3.4"
octocrab = "=0.47.1"
plotters = { version = "=0.3.7", default-features = false, features = ["svg_backend"] }
thiserror = "=2.0.21"
tokio = { version = "=1.54.1", features = ["full"] }
tracing = "=0.1.44"
tracing-subscriber = "=0.3.23"
uuid = { version = "=1.29.0", features = ["v4"] }
