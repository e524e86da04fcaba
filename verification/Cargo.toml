[package]
name = "nocode"
version = "0.1.0"
edition = "2021"
publish = false

[dependencies]
actix-multipart = { version = "=0.8.5", default-features = false }
actix-web = { version = "=4.18.1", default-features = false, features = ["macros"] }
anyhow = "=1.0.104"
base64 = "=0.22.1"
calamine = "=0.38.0"
chrono = "=0.4.45"
csv = "=1.4.0"
futures = "=0.3.34"
infer = "=0.22.0"
lettre = { version = "=0.11.23", default-features = false, features = ["builder", "smtp-transport", "tokio1-rustls-tls"] }
once_cell = "=1.21.4"
rand = "=0.10.3"
redis = { version = "=1.8.1", features = ["tokio-comp"] }
regex = "=1.13.1"
reqwest = { version = "=0.13.5", default-features = false, features = ["json"] }
rust_xlsxwriter = "=0.102.0"
serde = { version = "=1.0.229", features = ["derive"] }
serde_json = "=1.0.154"
sonic-rs = "=0.5.10"
tokio = { version = "=1.54.1", features = ["full"] }
urlencoding = "=2.1.3"
zip = { version = "=9.2.2", default-features = false, features = ["deflate"] }
