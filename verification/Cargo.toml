[package]
name = "cw-serial-keyer"
version = "0.1.0"
edition = "2021"
publish = false

[dependencies]
serialport = { version = "4", default-features = false }
thiserror = "2"
tokio = { version = "1", features = ["rt", "sync", "time", "net", "io-util", "macros"] }
