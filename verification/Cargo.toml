[package]
name = "ashina"
version = "0.1.0"
edition = "2021"
publish = false

[dependencies]
futures = "0.3"
log = "0.4"
tokio = { version = "1", features = ["rt-multi-thread", "net", "io-util", "fs"] }
