[package]
name = "aula_rgb"
version = "0.1.0"
edition = "2021"
publish = false

[dependencies]
anyhow = "=1.0.104"
hidapi = { version = "=2.6.7", default-features = false, features = ["linux-native-basic-udev"] }
image = { version = "=0.25.10", default-features = false, features = ["png", "gif", "jpeg", "bmp", "webp", "tga"] }
rhai = "=1.27.0"
serde = { version = "=1.0.229", features = ["derive"] }
serde_json = "=1.0.154"
thiserror = "=2.0.21"
