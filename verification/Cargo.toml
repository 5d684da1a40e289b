[package]
name = "dpi_bypass"
version = "0.1.0"
edition = "2021"
publish = false

[dependencies]
pnet = "0.35"
pnet_transport = "0.35"
rand = "0.8"
nfq = "0.2"
tokio = { version = "1", features = ["full"] }
tokio-rustls = { version = "0.26", default-features = false, features = ["ring", "tls12", "logging"] }
rustls = { version = "0.23", default-features = false, features = ["ring", "std", "tls12", "logging"] }
rustls-native-certs = "0.7"
colored = "2"
