[package]
name = "rusty_live_server"
version = "0.4.0"
edition = "2021"
publish = false

[dependencies]
base64 = "*"
blake3 = "*"
sha1 = "*"
mime_guess = "*"
tokio = { version = "*", features = ["full"] }
notify = "*"
