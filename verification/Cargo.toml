[package]
name = "audio_haxor"
version = "0.1.0"
edition = "2021"
publish = false

[dependencies]
regex = "=1.13.1"
rand = "=0.10.3"
serde = { version = "=1.0.229", features = ["derive"] }
serde_json = "=1.0.154"
chrono = "=0.4.45"
opener = "=0.9.0"
lopdf = "=0.46.0"
plist = "=1.10.3"
dirs = "=7.0.0"
flate2 = "*"
zip = { version = "*", default-features = false, features = ["deflate"] }
