[package]
name = "vlab_relay"
version = "0.1.0"
edition = "2021"
publish = false

[dependencies]
clap = { version = "3.2", features = ["derive"] }
clap_complete = "3.2"
colored = "2"
dialoguer = "0.10"
dirs = "4"
futures = "0.3"
human-panic = "1"
log = "0.4"
mongodb = "2"
once_cell = "1"
prost = "0.10"
serde = { version = "1", features = ["derive"] }
simple_logger = "2"
snafu = "0.7"
spinners = "*"
tokio = { version = "1", features = ["full"] }
tokio-tungstenite = "0.17"
toml = "0.5"
tonic = "0.7"
tonic-web = "0.3"
tracing = "0.1"
tracing-subscriber = "0.3"
uuid = { version = "1", features = ["v4"] }
whoami = "1"
