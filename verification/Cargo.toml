[package]
name = "moq"
version = "0.1.0"
edition = "2021"
publish = false

[dependencies]
anyhow = "1"
bytes = "1"
futures-util = "0.3"
image = { version = "0.25", default-features = false, features = ["jpeg"] }
redis = { version = "*", features = ["tokio-comp"] }
rmp-serde = "1"
sdl2 = "*"
serde = { version = "1", features = ["derive"] }
serde_bytes = "0.11"
tokio = { version = "1", features = ["full"] }
tracing = "0.1"
tracing-subscriber = "0.3"
wtransport = { version = "0.7", features = ["self-signed", "dangerous-configuration"] }
