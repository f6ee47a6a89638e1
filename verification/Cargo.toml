[package]
name = "scrape_server"
version = "0.1.0"
edition = "2021"
publish = false

[dependencies]
bytes = "=1.12.1"
futures-util = { version = "=0.3.34", features = ["sink"] }
tokio = { version = "=1.53.2", features = ["rt-multi-thread", "net", "io-util", "time", "sync", "macros"] }
tokio-websockets = { version = "=0.13.3", features = ["server", "sha1_smol"] }
