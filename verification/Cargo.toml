[package]
name = "authproxy"
version = "0.1.0"
edition = "2021"
publish = false

[dependencies]
anyhow = "=1.0.104"
async-shutdown = "=0.1.4"
futures = "=0.3.34"
hyper = { version = "=0.14.32", features = ["full"] }
lazy_static = "=1.5.1"
oauth2 = "=4.4.2"
openidconnect = "=2.5.1"
parking_lot = "=0.12.5"
regex = "=1.13.1"
reqwest = { version = "=0.11.27", features = ["stream"] }
rustls = "=0.20.9"
rustls-pemfile = "=1.0.4"
serde = { version = "=1.0.229", features = ["derive"] }
serde-value = "=0.7.0"
tokio = { version = "=1.53.2", features = ["full"] }
tokio-rustls = "=0.23.4"
toml = "=0.7.8"
tower = "=0.4.13"
unicase = "=2.10.0"
webpki = "=0.22.4"
