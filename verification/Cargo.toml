[package]
name = "rust4diva"
version = "0.1.0"
edition = "2021"
publish = false

[dependencies]
regex = "1"
sha2 = "0.10"
base64ct = { version = "1", features = ["alloc"] }
filenamify = "0.1"
chrono = "0.4"
keyvalues-parser = "0.2"
serde = { version = "1", features = ["derive"] }
toml = "0.8"
sonic-rs = "0.3"
dirs = "5"
tokio = { version = "1", features = ["rt-multi-thread", "macros", "fs", "sync", "time", "io-util"] }
reqwest = { version = "0.12", default-features = false, features = ["rustls-tls"] }
interprocess = { version = "2", features = ["tokio"] }
futures-util = "0.3"
