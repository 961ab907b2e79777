[package]
name = "zuchsya"
version = "0.1.0"
edition = "2021"
publish = false

[dependencies]
bevy = { version = "0.17", default-features = false, features = ["std", "bevy_state", "bevy_camera", "bevy_sprite", "bevy_ui", "bevy_text", "bevy_window", "bevy_log", "bevy_color"] }
serde = { version = "1", features = ["derive"] }
serde_yaml = "0.9"
thiserror = "2"
