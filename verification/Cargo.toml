[package]
name = "netools"
version = "0.1.0"
edition = "2021"
publish = false

[dependencies]
url = "2"
encoding_rs = "0.8"
tokio = { version = "1", features = ["rt", "macros", "process", "net", "time", "io-util"] }
futures = "0.3"
serde = { version = "1", features = ["derive"] }
serde_json = "1"
hickory-resolver = "*"
reqwest = { version = "0.12", default-features = false, features = ["rustls-tls"] }
x509-parser = "*"
network-interface = "*"
surge-ping = "*"
rand = "*"
