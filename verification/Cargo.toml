[package]
name = "mymuxer"
version = "0.2.0"
edition = "2021"
publish = false

[dependencies]
anyhow = "1"
axum = "=0.8.9"
bytes = "=1.12.1"
chrono = { version = "=0.4.45", features = ["serde"] }
chrono-tz = { version = "=0.10.4", features = ["serde"] }
crc = "=3.4.0"
encoding_rs = "=0.8.44"
futures = "0.3"
http-body-util = "*"
hyper = { version = "=1.12.0", features = ["full"] }
hyper-util = { version = "0.1", features = ["full"] }
ipnet = "=2.12.2"
libc = "0.2"
m3u8-rs = "=6.0.1"
rand = "=0.9.5"
redb = "=4.4.0"
reqwest = { version = "=0.12.28", default-features = false, features = ["json", "stream"] }
scopeguard = "1"
serde = { version = "1", features = ["derive"] }
serde_json = "=1.0.154"
socket2 = { version = "=0.5.10", features = ["all"] }
tikv-jemalloc-ctl = { version = "0.6", features = ["stats"] }
tikv-jemallocator = "0.6"
tokio = { version = "1", features = ["full"] }
tokio-stream = { version = "0.1", features = ["sync"] }
tokio-util = { version = "0.7", features = ["full"] }
tracing = "0.1"
tracing-appender = "0.2"
tracing-subscriber = { version = "0.3", features = ["chrono"] }
url = "=2.5.8"
