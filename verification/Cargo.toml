[package]
name = "torxel_engine"
version = "0.1.0"
edition = "2021"
publish = false

[dependencies]
serde = { version = "1", features = ["derive"] }
bincode = "1"
glam = "0.29"
noise = "0.9"
dirs = "5"
bevy = { version = "0.15", default-features = false, features = ["bevy_render", "bevy_pbr", "bevy_ui", "bevy_state", "bevy_text", "bevy_core_pipeline", "bevy_asset"] }
