[package]
name = "moq-x265"
version = "0.1.0"
edition = "2021"
publish = false

[dependencies]
anyhow = "=1.0.104"
clap = { version = "=4.6.7", features = ["derive"] }
image = { version = "=0.25.10", default-features = false }
lazy_static = "=1.5.1"
libc = "=0.2.191"
moq-karp = "=0.15.0"
moq-native = "=0.6.8"
moq-transfork = "=0.12.0"
scrap = "=0.5.0"
sdl2 = "=0.38.0"
thiserror = "=1.0.69"
tokio = { version = "=1.54.1", features = ["full"] }
tracing = "=0.1.44"
url = "=2.5.8"
windows = { version = "=0.58.0", features = ["Media_MediaProperties", "Media_Transcoding", "Storage_Streams", "Win32_Media_MediaFoundation"] }
x264 = "=0.5.0"
