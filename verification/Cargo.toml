[package]
name = "theseus"
version = "0.1.0"
edition = "2021"
publish = false

[dependencies]
url = "=2.5.8"
urlencoding = "=2.1.3"
sha2 = "=0.10.9"
sha1_smol = { version = "1", features = ["std"] }
chrono = { version = "0.4", default-features = false, features = ["std"] }
serde = { version = "=1.0.229", features = ["derive"] }
serde_json = "=1.0.154"
zip = { version = "=2.6.1", default-features = false, features = ["deflate"] }
flate2 = "1"
tar = "0.4"
dirs = "6"
uuid = { version = "1", features = ["v4"] }

[dev-dependencies]
tempfile = "=3.27.0"
