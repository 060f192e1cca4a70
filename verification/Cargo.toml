[package]
name = "herdr-a2a-cli"
version = "0.1.0"
edition = "2021"
publish = false

[dependencies]
a2a-lf = "*"
async-trait = "=0.1.92"
base64 = "=0.22.1"
crossterm = "=0.29.0"
futures = "=0.3.34"
getrandom = "=0.3.4"
hmac = "=0.12.1"
reqwest = { version = "=0.12.28", default-features = false, features = ["json", "stream"] }
rustix = { version = "=1.1.6", features = ["fs", "process"] }
serde = { version = "=1.0.229", features = ["derive"] }
serde_json = "=1.0.154"
sha2 = "=0.10.9"
subtle = "=2.6.1"
tokio = { version = "=1.54.1", features = ["full"] }
toml = "=0.8.23"
