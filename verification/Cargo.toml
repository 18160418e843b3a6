[package]
name = "nbe"
version = "0.4.4"
edition = "2021"
publish = false

[dependencies]
anyhow = "1"
bytemuck = { version = "1", features = ["derive"] }
futures-util = "0.3"
image = { version = "0.25", default-features = false, features = ["png", "jpeg", "webp", "gif", "bmp"] }
jsonschema = { version = "*", default-features = false }
objc2 = "*"
objc2-audio-toolbox = "*"
objc2-av-foundation = "*"
objc2-core-audio-types = "*"
objc2-core-foundation = "*"
objc2-core-media = "*"
objc2-core-video = "*"
objc2-foundation = "*"
objc2-io-surface = "*"
objc2-metal = "*"
objc2-video-toolbox = "*"
serde = { version = "1", features = ["derive"] }
serde_json = "1"
thiserror = "*"
tokio = { version = "1", features = ["full"] }
tokio-tungstenite = "*"
tracing = "0.1"
tracing-subscriber = "0.3"
wgpu = "*"
