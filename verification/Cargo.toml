[package]
name = "mcap"
version = "0.1.0"
edition = "2021"
publish = false

[dependencies]
async-compression = { version = "0.4", features = ["tokio", "zstd", "lz4"] }
binrw = "0.14"
byteorder = "1"
tokio = { version = "1", features = ["io-util", "rt"] }
tracing = "0.1"
