[package]
name = "rewynd"
version = "0.1.0"
edition = "2021"
publish = false

[dependencies]
cidre = "*"
dirs = "=7.0.0"
gpu-video = "=0.4.0"
iced = { version = "=0.14.0", default-features = false, features = ["image-without-codecs", "tokio", "tiny-skia", "x11"] }
image = { version = "=0.25.10", default-features = false, features = ["png"] }
libc = "=0.2.191"
mp4 = "=0.14.0"
openh264 = "=0.9.9"
opus = "=0.4.0"
serde = { version = "1", features = ["derive"] }
serde_json = "=1.0.154"
tokio = { version = "=1.54.1", features = ["rt-multi-thread", "time"] }
toml = "=1.1.8"
tracing = "=0.1.44"
tracing-subscriber = { version = "=0.3.23", default-features = false, features = ["fmt"] }
wgpu = "=29.0.4"
windows = { version = "=0.62.2", features = ["Win32_Foundation", "Win32_Media_Audio", "Win32_Security", "Win32_System_Com", "Win32_System_Com_StructuredStorage", "Win32_System_Console", "Win32_System_Threading", "Win32_UI_Shell_PropertiesSystem"] }
windows-registry = "*"
