[package]
name = "nexterm"
version = "0.1.0"
edition = "2021"
publish = false

[dependencies]
regex = "=1.13.1"
unicode-width = "=0.2.3"
uuid = { version = "=1.29.0", features = ["serde", "v4"] }
vte = "=0.13.1"

anyhow = "1"
async-trait = "0.1"
bytemuck = { version = "1", features = ["derive"] }
cosmic-text = { version = "0.12", default-features = false, features = ["std", "swash"] }
egui = { version = "0.31", default-features = false }
egui-wgpu = { version = "0.31", default-features = false }
egui-winit = { version = "0.31", default-features = false, features = ["x11"] }
jiff = { version = "0.2", default-features = false, features = ["std", "tz-system"] }
rusqlite = { version = "0.31", default-features = false, features = ["bundled"] }
russh = { version = "0.45", default-features = false }
russh-keys = { version = "0.45", default-features = false }
russh-sftp = { version = "2", default-features = false }
serde = { version = "1", features = ["derive"] }
serde_json = "1"
swash = "=0.1.19"
tokio = { version = "1", features = ["sync"] }
toml = { version = "0.8", default-features = false, features = ["parse"] }
tracing = { version = "0.1", default-features = false, features = ["std"] }
wgpu = { version = "24", default-features = false, features = ["wgsl"] }
winit = { version = "0.30", default-features = false, features = ["x11", "rwh_06"] }
