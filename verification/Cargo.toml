[package]
name = "spacestorage"
version = "0.1.0"
edition = "2021"
publish = false

[dependencies]
num-bigint = "=0.4.8"
num-integer = "=0.1.47"
num-traits = "=0.2.19"
syslog_loose = "=0.23.0"
chrono = "=0.4.45"
redis-protocol = "=4.1.0"
bytes = "=1.12.1"
aes = "=0.7.5"
block-modes = "=0.8.1"
hex-literal = "=0.3.4"
serde = { version = "=1.0.229", features = ["derive"] }
serde_json = "=1.0.154"
config = "=0.11.0"
tokio = { version = "=1.54.1", features = ["full"] }
warp = { version = "=0.3.7", features = ["tls"] }
hyper = { version = "=0.14.32", features = ["full"] }
futures = "=0.3.34"
socket2 = "=0.3.19"
prometheus = "=0.13.4"
lazy_static = "=1.5.1"
console = "=0.15.11"
thread-id = "=4.2.2"
hostname = "=0.3.1"
log = "=0.4.35"
tracing = "=0.1.44"
tracing-subscriber = { version = "=0.3.23", features = ["json"] }
tracing-appender = "=0.2.5"
