[package]
name = "quic"
version = "0.1.0"
edition = "2021"
publish = false

[dependencies]
byteorder = "=1.5.0"
bytes = "=0.4.12"
smallvec = "=0.6.14"
lz_diet = "=0.1.6"
rand = "=0.4.6"
hex = "=0.3.2"
chrono = "=0.4.45"
futures = "=0.1.31"
tokio-core = "=0.1.18"
rustls = { version = "=0.16.0", features = ["quic"] }
