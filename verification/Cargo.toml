[package]
name = "rpaste"
version = "0.1.0"
edition = "2021"
publish = false

[dependencies]
ring = "=0.17.14"
flate2 = "=1.1.10"
rand = "=0.9.5"
serde_json = "=1.0.151"
reqwest = { version = "=0.12.28", default-features = false, features = ["blocking", "json", "rustls-tls"] }
mime_guess = "=2.0.5"
atty = "=0.2.14"
clap = "=4.6.7"

[dev-dependencies]
base64 = "=0.22.1"
