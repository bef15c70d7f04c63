[package]
name = "hb_buy_strategy"
version = "0.1.0"
edition = "2021"
publish = false

[dependencies]
hmac = "0.10"
sha2 = "0.9"
base64 = "0.13"
urlencoding = "1"
chrono = "0.4"
rand = "0.8"
serde = { version = "1", features = ["derive"] }
serde_json = "1"
toml = "0.5"
log = "0.4"
fern = "0.6"
lazy_static = "1"
actix = "0.10"
actix-rt = "1"
actix-http = "2"
actix-web = "3"
actix-web-actors = "3"
reqwest = { version = "0.10", default-features = false, features = ["json", "rustls-tls"] }
tokio = { version = "0.2", features = ["full"] }
