[package]
name = "dictationapp"
version = "0.4.0"
edition = "2021"
publish = false

[dependencies]
hound = "3"
image = { version = "0.25", default-features = false, features = ["png", "jpeg"] }
imageproc = { version = "0.25", default-features = false }
ab_glyph = "0.2"
serde = { version = "1", features = ["derive"] }
serde_json = "1"
reqwest = { version = "0.12", default-features = false, features = ["json", "multipart", "rustls-tls"] }
tokio = { version = "1", features = ["sync", "time", "rt"] }
arboard = "3"
dirs = "*"
dotenv = "0.15"
