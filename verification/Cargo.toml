[package]
name = "uxf"
version = "1.2.5"
edition = "2021"
publish = false

[dependencies]
anyhow = "1"
bitflags = "1"
chrono = "0.4"
clap = { version = "3.2", features = ["derive"] }
flate2 = "1"
indexmap = "1"
regex = "1"
reqwest = { version = "0.11", default-features = false, features = ["blocking", "rustls-tls"] }
