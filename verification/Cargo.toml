[package]
name = "sock5s"
version = "0.1.0"
edition = "2021"
publish = false

[dependencies]
chrono = { version = "0.4", default-features = false, features = ["clock", "std"] }
ipnet = { version = "2", features = ["serde"] }
serde = { version = "1", features = ["derive"] }
toml = "0.8"
tokio = { version = "1", features = ["net", "io-util", "rt-multi-thread", "macros", "sync", "time"] }
tokio-stream = { version = "0.1", features = ["net"] }
socket2 = "0.5"
clap = { version = "4", features = ["derive"] }
indoc = "2"
