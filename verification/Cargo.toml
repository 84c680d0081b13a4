[package]
name = "cashu_store"
version = "0.1.0"
edition = "2021"
publish = false

[dependencies]
serde = { version = "=1.0.229", features = ["derive"] }
serde_json = "=1.0.154"
urlencoding = "=2.1.3"
url = "=2.5.8"
cdk = { version = "=0.18.3", default-features = false }
sha2 = "0.10"
