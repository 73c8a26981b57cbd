[package]
name = "executorch_prebuilt"
version = "0.1.0"
edition = "2021"
publish = false

[dependencies]
anyhow = "1"
futures-util = "0.3"
hex = "0.4"
reqwest = { version = "0.12", default-features = false, features = ["stream", "rustls-tls"] }
sha2 = "0.10"
tokio = { version = "1", features = ["rt-multi-thread", "fs", "io-util", "macros"] }
zip = { version = "2", default-features = false, features = ["deflate"] }

[dev-dependencies]
regex = "1"
