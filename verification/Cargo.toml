[package]
name = "web_video_catcher"
version = "0.1.0"
edition = "2021"
publish = false

[dependencies]
serde = { version = "1", features = ["derive"] }
serde_json = "1"
tokio = { version = "1", features = ["net", "io-util", "process", "macros", "rt", "time"] }
reqwest = { version = "0.12", default-features = false }
rcgen = { version = "0.13", default-features = false, features = ["ring", "pem"] }
