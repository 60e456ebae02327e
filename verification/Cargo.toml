[package]
name = "paperfold"
version = "0.1.0"
edition = "2021"
publish = false

[dependencies]
uuid = { version = "1", features = ["v4"] }
chrono = "0.4"
mime_guess = "2"
base64 = "0.22"
bytes = "1"
dav-server = "0.5"
dotenv = "0.15"
env_logger = "0.10"
futures = "0.3"
grammers-client = "0.7"
grammers-session = "0.7"
grammers-tl-types = "0.7"
hyper = { version = "0.14", features = ["server", "http1", "tcp"] }
rand = "0.8"
serde = { version = "1", features = ["derive"] }
serde_json = "1"
tokio = { version = "1", features = ["full"] }
