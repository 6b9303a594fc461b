[package]
name = "edman"
version = "0.1.0"
edition = "2021"
publish = false

[dependencies]
directories = "=6.0.0"
tokio = { version = "=1.53.2", features = ["rt-multi-thread", "macros", "net", "io-util", "io-std", "signal", "sync", "time", "fs"] }
tonic = "=0.14.6"
tonic-prost = "*"
tower = "=0.5.3"
tokio-stream = { version = "=0.1.19", features = ["net"] }
tokio-retry = "=0.3.2"
prost = "=0.14.4"
clap = { version = "=4.6.7", features = ["derive"] }
anyhow = "=1.0.104"

[dev-dependencies]
serde_json = "=1.0.151"
