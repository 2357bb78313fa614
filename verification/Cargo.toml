[package]
name = "tessera"
version = "0.1.0"
edition = "2021"
publish = false

[dependencies]
rand = "0.8"
chrono = "0.4"
serde = { version = "1", features = ["derive"] }
serde_json = "1"
tokio = { version = "1", features = ["rt-multi-thread", "macros", "io-std", "io-util", "time", "sync"] }
zenoh = { version = "1", default-features = false, features = ["transport_tcp"] }
rodio = { version = "0.19", default-features = false }
