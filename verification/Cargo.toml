[package]
name = "tdx"
version = "0.1.0"
edition = "2021"
publish = false

[dependencies]
encoding_rs = "0.8"
flate2 = "1"
chrono = "0.4"
rand = "0.8"
tokio = { version = "1", features = ["net", "io-util", "sync", "time", "rt-multi-thread", "macros"] }
log = "0.4"
env_logger = "0.10"
thiserror = "1"
