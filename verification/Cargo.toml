[package]
name = "ladybug-adbc"
version = "0.1.0"
edition = "2021"
publish = false

[dependencies]
anyhow = "1"
arrow = { version = "55.2", features = ["prettyprint"] }
arrow-flight = "55.2"
clap = { version = "4", features = ["derive", "env"] }
futures = "0.3"
lbug = { version = "=0.22.1", features = ["arrow"] }
serde_json = "1"
tokio = { version = "1", features = ["full"] }
tokio-stream = { version = "0.1", features = ["net"] }
tonic = "0.12"
uuid = { version = "=1.29.0", features = ["v4"] }
